//! Devices that advertise themselves on the local network.
use crate::device::{
    either, new_apple_tv, synthetic_device_id, synthetic_id, Device, Endpoint, IpAddress,
};
use crate::table::{held, keys_distinct, Table};
use crate::text::{
    ascii_lowercase, chars_at, chars_of, contains, has_text, is_prefix, lower, lower_chars,
    opt_text, replace_char, same_ignoring_case, same_text, starts_with, string_of, text_le,
    text_not_after, trim_end_char, with_char_replaced, without_trailing,
};
use std::collections::{HashMap, HashSet};
use vstd::prelude::*;

verus! {

pub const REMOTEPAIRING_MANUAL_PAIRING_SERVICE: &'static str = "_remotepairing-manual-pairing._tcp.local.";

pub const REMOTEPAIRING_SERVICE: &'static str = "_remotepairing._tcp.local.";

pub const APPLE_MOBDEV2_SERVICE: &'static str = "_apple-mobdev2._tcp.local.";

pub const APPLE_PAIRABLE_SERVICE: &'static str = "_apple-pairable._tcp.local.";

pub const COMPANION_LINK_SERVICE: &'static str = "_companion-link._tcp.local.";

/// The services through which a device can be used.
pub fn service_types() -> (r: Vec<&'static str>)
    ensures
        r@.map_values(|s: &'static str| s@) == seq![
            APPLE_MOBDEV2_SERVICE@,
            APPLE_PAIRABLE_SERVICE@,
            REMOTEPAIRING_SERVICE@,
            REMOTEPAIRING_MANUAL_PAIRING_SERVICE@,
        ],
{
    let r: Vec<&'static str> = vec![
        APPLE_MOBDEV2_SERVICE,
        APPLE_PAIRABLE_SERVICE,
        REMOTEPAIRING_SERVICE,
        REMOTEPAIRING_MANUAL_PAIRING_SERVICE,
    ];
    proof {
        assert(r@.map_values(|s: &'static str| s@) =~= seq![
            APPLE_MOBDEV2_SERVICE@,
            APPLE_PAIRABLE_SERVICE@,
            REMOTEPAIRING_SERVICE@,
            REMOTEPAIRING_MANUAL_PAIRING_SERVICE@,
        ]);
    }
    r
}

/// The services that only tell more of a device.
pub fn metadata_service_types() -> (r: Vec<&'static str>)
    ensures
        r@.map_values(|s: &'static str| s@) == seq![COMPANION_LINK_SERVICE@],
{
    let r: Vec<&'static str> = vec![COMPANION_LINK_SERVICE];
    proof {
        assert(r@.map_values(|s: &'static str| s@) =~= seq![COMPANION_LINK_SERVICE@]);
    }
    r
}

/// Every service that a scan asks for.
pub open spec fn scanned_services() -> Seq<Seq<char>> {
    seq![
        APPLE_MOBDEV2_SERVICE@,
        APPLE_PAIRABLE_SERVICE@,
        REMOTEPAIRING_SERVICE@,
        REMOTEPAIRING_MANUAL_PAIRING_SERVICE@,
        COMPANION_LINK_SERVICE@,
    ]
}

/// Every service that a scan asks for.
pub fn all_scanned_service_types() -> (r: Vec<&'static str>)
    ensures
        r@.map_values(|s: &'static str| s@) == scanned_services(),
{
    let r: Vec<&'static str> = vec![
        APPLE_MOBDEV2_SERVICE,
        APPLE_PAIRABLE_SERVICE,
        REMOTEPAIRING_SERVICE,
        REMOTEPAIRING_MANUAL_PAIRING_SERVICE,
        COMPANION_LINK_SERVICE,
    ];
    proof {
        assert(r@.map_values(|s: &'static str| s@) =~= scanned_services());
    }
    r
}

#[derive(Debug, Clone, Copy, PartialEq, Eq, Structural)]
pub enum DeviceType {
    IPhone,
    IPad,
    AppleTV,
    AppleMac,
    Unknown,
}

/// The type that a device class stands for.
pub open spec fn type_of_class(class: Seq<char>) -> DeviceType {
    if class == "iPhone"@ {
        DeviceType::IPhone
    } else if class == "iPad"@ {
        DeviceType::IPad
    } else if class == "AppleTV"@ {
        DeviceType::AppleTV
    } else if class == "Mac"@ {
        DeviceType::AppleMac
    } else {
        DeviceType::Unknown
    }
}

/// The type that a product type stands for, by how it starts.
pub open spec fn type_of_product(product: Seq<char>) -> DeviceType {
    if is_prefix("iPhone"@, product) {
        DeviceType::IPhone
    } else if is_prefix("iPad"@, product) {
        DeviceType::IPad
    } else if is_prefix("AppleTV"@, product) {
        DeviceType::AppleTV
    } else if is_prefix("Mac"@, product) {
        DeviceType::AppleMac
    } else {
        DeviceType::Unknown
    }
}

impl DeviceType {
    pub fn from_device_class(device_class: &str) -> (r: DeviceType)
        ensures
            r == type_of_class(device_class@),
    {
        if same_text(device_class, "iPhone") {
            DeviceType::IPhone
        } else if same_text(device_class, "iPad") {
            DeviceType::IPad
        } else if same_text(device_class, "AppleTV") {
            DeviceType::AppleTV
        } else if same_text(device_class, "Mac") {
            DeviceType::AppleMac
        } else {
            DeviceType::Unknown
        }
    }

    pub fn from_product_type(product_type: &str) -> (r: DeviceType)
        ensures
            r == type_of_product(product_type@),
    {
        if starts_with(product_type, "iPhone") {
            DeviceType::IPhone
        } else if starts_with(product_type, "iPad") {
            DeviceType::IPad
        } else if starts_with(product_type, "AppleTV") {
            DeviceType::AppleTV
        } else if starts_with(product_type, "Mac") {
            DeviceType::AppleMac
        } else {
            DeviceType::Unknown
        }
    }

    /// The type as it is shown.
    pub fn to_text(&self) -> (r: &'static str)
        ensures
            r@ == match self {
                DeviceType::IPhone => "iPhone"@,
                DeviceType::IPad => "iPad"@,
                DeviceType::AppleTV => "Apple TV"@,
                DeviceType::AppleMac => "Mac"@,
                DeviceType::Unknown => "Unknown"@,
            },
    {
        match self {
            DeviceType::IPhone => "iPhone",
            DeviceType::IPad => "iPad",
            DeviceType::AppleTV => "Apple TV",
            DeviceType::AppleMac => "Mac",
            DeviceType::Unknown => "Unknown",
        }
    }
}

#[derive(Debug, Clone, Copy, PartialEq, Eq, Structural)]
pub enum ConnectionType {
    USB,
    WiFi,
}

impl ConnectionType {
    /// The connection as it is shown.
    pub fn to_text(&self) -> (r: &'static str)
        ensures
            r@ == match self {
                ConnectionType::USB => "USB"@,
                ConnectionType::WiFi => "WiFi"@,
            },
    {
        match self {
            ConnectionType::USB => "USB",
            ConnectionType::WiFi => "WiFi",
        }
    }
}

/// A device that was found on the network.
#[derive(Debug)]
pub struct DiscoveredDevice {
    pub name: String,
    pub hostname: String,
    pub udid: Option<String>,
    pub ip_address: Option<IpAddress>,
    pub port: Option<u16>,
    pub device_type: DeviceType,
    pub connection_type: ConnectionType,
    pub is_paired: bool,
    pub product_type: Option<String>,
    pub os_version: Option<String>,
    pub service_type: String,
}

impl Clone for DiscoveredDevice {
    fn clone(&self) -> (r: DiscoveredDevice)
        ensures
            r == *self,
    {
        DiscoveredDevice {
            name: self.name.clone(),
            hostname: self.hostname.clone(),
            udid: self.udid.clone(),
            ip_address: self.ip_address.clone(),
            port: self.port,
            device_type: self.device_type,
            connection_type: self.connection_type,
            is_paired: self.is_paired,
            product_type: self.product_type.clone(),
            os_version: self.os_version.clone(),
            service_type: self.service_type.clone(),
        }
    }
}

// ---------------------------------------------------------------------------
// Names
// ---------------------------------------------------------------------------

/// `s` ends with `suffix`, whatever the case of ASCII letters.
pub open spec fn ends_ignoring_case(s: Seq<char>, suffix: Seq<char>) -> bool {
    suffix.len() <= s.len() && same_ignoring_case(s.skip(s.len() - suffix.len()), suffix)
}

/// Whether `s` ends with `suffix`, whatever the case of ASCII letters.
pub fn ends_with_ignore_case(s: &str, suffix: &str) -> (r: bool)
    ensures
        r == ends_ignoring_case(s@, suffix@),
{
    let a: Vec<char> = lower_chars(&chars_of(s));
    let b: Vec<char> = lower_chars(&chars_of(suffix));
    if b.len() > a.len() {
        return false;
    }
    let at: usize = a.len() - b.len();
    proof {
        assert(a@.subrange(at as int, at + b@.len()) =~= lower(s@.skip(at as int)));
    }
    chars_at(&a, &b, at)
}

/// The instance part of the full name of a service: what stands before the service type and its dot.
pub open spec fn instance_part(full_name: Seq<char>, service_type: Seq<char>) -> Seq<char> {
    let full = without_trailing(full_name, '.');
    let service = without_trailing(service_type, '.');
    let cut = full.len() - service.len() - 1;
    if service.len() > 0 && cut > 0 && full[cut] == '.' && ends_ignoring_case(full, service) {
        full.take(cut)
    } else {
        full
    }
}

/// The instance part of the full name of a service.
pub fn parse_instance_name(full_name: &str, service_type: &str) -> (r: String)
    ensures
        r@ == instance_part(full_name@, service_type@),
{
    let full: String = trim_end_char(full_name, '.');
    let service: String = trim_end_char(service_type, '.');
    let chars: Vec<char> = chars_of(full.as_str());
    let service_len: usize = chars_of(service.as_str()).len();
    let n: usize = chars.len();
    if service_len > 0 && n >= service_len && n - service_len > 1 && chars[n - service_len - 1]
        == '.' && ends_with_ignore_case(full.as_str(), service.as_str()) {
        let cut: usize = n - service_len - 1;
        let r: String = string_of(&chars, 0, cut);
        proof {
            assert(r@ =~= full@.take(cut as int));
        }
        return r;
    }
    full
}

/// A host name without the dots at its end and without `.local`.
pub open spec fn short_host(hostname: Seq<char>) -> Seq<char> {
    let host = without_trailing(hostname, '.');
    if ends_ignoring_case(host, ".local"@) {
        host.take(host.len() - ".local"@.len())
    } else {
        host
    }
}

/// A host name without the dots at its end and without `.local`.
pub fn short_hostname(hostname: &str) -> (r: String)
    ensures
        r@ == short_host(hostname@),
{
    let host: String = trim_end_char(hostname, '.');
    if ends_with_ignore_case(host.as_str(), ".local") {
        let chars: Vec<char> = chars_of(host.as_str());
        proof {
            reveal_strlit(".local");
        }
        let end: usize = chars.len() - 6;
        let r: String = string_of(&chars, 0, end);
        proof {
            assert(r@ =~= host@.take(end as int));
        }
        r
    } else {
        host
    }
}

/// The key under which the findings of one host and service are collected.
pub fn dedup_key(hostname: &str, instance_name: &str, service_type: &str) -> (r: (String, String))
    ensures
        r.0@ == lower(
            if short_host(hostname@).len() == 0 {
                instance_name@
            } else {
                short_host(hostname@)
            },
        ),
        r.1@ == service_type@,
{
    let host: String = short_hostname(hostname);
    let base: String = if chars_of(host.as_str()).len() == 0 {
        ascii_lowercase(instance_name)
    } else {
        ascii_lowercase(host.as_str())
    };
    (base, service_type.to_string())
}

// ---------------------------------------------------------------------------
// Building a device from a service
// ---------------------------------------------------------------------------

/// The value of the first of `candidates`, from index `from` on, that has a value that is not empty.
pub open spec fn first_value(
    props: Seq<(Seq<char>, Seq<char>)>,
    candidates: Seq<Seq<char>>,
    from: int,
) -> Option<Seq<char>>
    decreases candidates.len() - from,
{
    if from >= candidates.len() {
        None
    } else {
        match held(props, candidates[from]) {
            Some(v) if v.len() > 0 => Some(v),
            _ => first_value(props, candidates, from + 1),
        }
    }
}

/// The value of the first of `candidates` that has a value that is not empty.
pub fn first_non_empty(props: &Table<String, String>, candidates: &Vec<&str>) -> (r: Option<String>)
    ensures
        opt_text(r) == first_value(props@, candidates@.map_values(|s: &str| s@), 0),
{
    let ghost keys = candidates@.map_values(|s: &str| s@);
    let mut i: usize = 0;
    while i < candidates.len()
        invariant
            i <= candidates@.len(),
            keys == candidates@.map_values(|s: &str| s@),
            first_value(props@, keys, 0) == first_value(props@, keys, i as int),
        decreases candidates@.len() - i,
    {
        proof {
            assert(keys[i as int] == candidates@[i as int]@);
        }
        if let Some(v) = props.get(candidates[i]) {
            if chars_of(v.as_str()).len() > 0 {
                return Some(v.clone());
            }
        }
        i += 1;
    }
    None
}

/// The keys that give a device's class.
pub open spec fn class_keys() -> Seq<Seq<char>> {
    seq!["DeviceClass"@, "deviceClass"@]
}

/// The keys that give a device's product type.
pub open spec fn model_keys() -> Seq<Seq<char>> {
    seq!["ProductType"@, "model"@, "rpMd"@]
}

/// The type of a device with the given properties.
pub open spec fn type_in(props: Seq<(Seq<char>, Seq<char>)>) -> DeviceType {
    match first_value(props, class_keys(), 0) {
        Some(class) => type_of_class(class),
        None => match first_value(props, model_keys(), 0) {
            Some(model) => type_of_product(model),
            None => DeviceType::Unknown,
        },
    }
}

/// The name of a device: its host name with spaces for hyphens, else what it calls itself, else the
/// name of its service.
pub open spec fn name_in(
    hostname: Seq<char>,
    props: Seq<(Seq<char>, Seq<char>)>,
    instance_name: Seq<char>,
) -> Seq<char> {
    if short_host(hostname).len() > 0 {
        with_char_replaced(short_host(hostname), '-', ' ')
    } else {
        match first_value(props, seq!["name"@, "Name"@], 0) {
            Some(name) => name,
            None => instance_name,
        }
    }
}

/// An address is among those that are preferred: the IPv4 addresses, or all where there is none.
pub open spec fn preferred(addresses: Seq<IpAddress>, i: int) -> bool {
    0 <= i < addresses.len() && (addresses[i].ipv4 || forall|j: int|
        0 <= j < addresses.len() ==> !(#[trigger] addresses[j]).ipv4)
}

/// `r` is the preferred address whose text comes first; none where there are no addresses.
pub open spec fn best_text(addresses: Seq<IpAddress>, r: Option<IpAddress>) -> bool {
    match r {
        Some(a) => (exists|i: int| #[trigger] preferred(addresses, i) && addresses[i] == a)
            && forall|i: int|
            #[trigger] preferred(addresses, i) ==> text_le(a.text@, addresses[i].text@),
        None => addresses.len() == 0,
    }
}

/// The preferred one of several addresses.
pub fn preferred_ip_address(addresses: &Vec<IpAddress>) -> (r: Option<IpAddress>)
    ensures
        best_text(addresses@, r),
{
    let mut any_v4: bool = false;
    let mut i: usize = 0;
    while i < addresses.len()
        invariant
            i <= addresses@.len(),
            any_v4 == exists|j: int| 0 <= j < i && (#[trigger] addresses@[j]).ipv4,
        decreases addresses@.len() - i,
    {
        if addresses[i].ipv4 {
            any_v4 = true;
        }
        i += 1;
    }
    let ghost pool = |j: int| 0 <= j < addresses@.len() && (addresses@[j].ipv4 || !any_v4);
    proof {
        assert forall|j: int| #[trigger] preferred(addresses@, j) == pool(j) by {}
    }
    let mut best: Option<usize> = None;
    let mut k: usize = 0;
    while k < addresses.len()
        invariant
            k <= addresses@.len(),
            pool == (|j: int| 0 <= j < addresses@.len() && (addresses@[j].ipv4 || !any_v4)),
            match best {
                Some(b) => b < k && pool(b as int) && forall|j: int|
                    0 <= j < k && pool(j) ==> text_le(
                        addresses@[b as int].text@,
                        #[trigger] addresses@[j].text@,
                    ),
                None => forall|j: int| 0 <= j < k ==> !#[trigger] pool(j),
            },
        decreases addresses@.len() - k,
    {
        if addresses[k].ipv4 || !any_v4 {
            let better: bool = match best {
                Some(b) => !text_not_after(addresses[b].text.as_str(), addresses[k].text.as_str()),
                None => true,
            };
            proof {
                assert(pool(k as int));
                crate::text::lemma_text_le_reflexive(addresses@[k as int].text@);
                if let Some(b) = best {
                    let old_best = addresses@[b as int].text@;
                    crate::text::lemma_text_le_order(old_best, addresses@[k as int].text@);
                    if better {
                        assert forall|j: int| 0 <= j < k && pool(j) implies text_le(
                            addresses@[k as int].text@,
                            #[trigger] addresses@[j].text@,
                        ) by {
                            crate::text::lemma_text_le_transitive(
                                addresses@[k as int].text@,
                                old_best,
                                addresses@[j].text@,
                            );
                        }
                    }
                } else {
                    assert forall|j: int| 0 <= j < k implies !#[trigger] pool(j) by {}
                }
            }
            if better {
                best = Some(k);
            }
        }
        k += 1;
    }
    match best {
        Some(b) => {
            proof {
                assert(preferred(addresses@, b as int));
            }
            Some(addresses[b].clone())
        },
        None => {
            proof {
                if addresses@.len() > 0 {
                    assert(!pool(0));
                    assert(any_v4);
                    let j = choose|j: int| 0 <= j < addresses@.len() && (#[trigger] addresses@[j]).ipv4;
                    assert(!pool(j));
                }
            }
            None
        },
    }
}

/// The device that a resolved service stands for.
pub fn build_device(
    instance_name: &str,
    hostname: &str,
    service_type: &str,
    port: Option<u16>,
    addresses: &Vec<IpAddress>,
    props: &Table<String, String>,
) -> (r: DiscoveredDevice)
    ensures
        r.name@ == name_in(hostname@, props@, instance_name@),
        r.hostname@ == short_host(hostname@),
        r.udid is None,
        best_text(addresses@, r.ip_address),
        r.port == port,
        r.device_type == type_in(props@),
        r.connection_type == ConnectionType::WiFi,
        r.is_paired == has_text(service_type@, "mobdev2"@),
        opt_text(r.product_type) == first_value(props@, model_keys(), 0),
        opt_text(r.os_version) == first_value(props@, seq!["OSVersion"@, "osVersion"@], 0),
        r.service_type@ == service_type@,
{
    let class_candidates: Vec<&str> = vec!["DeviceClass", "deviceClass"];
    let model_candidates: Vec<&str> = vec!["ProductType", "model", "rpMd"];
    let version_candidates: Vec<&str> = vec!["OSVersion", "osVersion"];
    let name_candidates: Vec<&str> = vec!["name", "Name"];
    proof {
        assert(class_candidates@.map_values(|s: &str| s@) =~= class_keys());
        assert(model_candidates@.map_values(|s: &str| s@) =~= model_keys());
        assert(version_candidates@.map_values(|s: &str| s@) =~= seq!["OSVersion"@, "osVersion"@]);
        assert(name_candidates@.map_values(|s: &str| s@) =~= seq!["name"@, "Name"@]);
    }
    let product_type: Option<String> = first_non_empty(props, &model_candidates);
    let device_type: DeviceType = match first_non_empty(props, &class_candidates) {
        Some(class) => DeviceType::from_device_class(class.as_str()),
        None => match &product_type {
            Some(model) => DeviceType::from_product_type(model.as_str()),
            None => DeviceType::Unknown,
        },
    };
    let host: String = short_hostname(hostname);
    let name: String = if chars_of(host.as_str()).len() > 0 {
        replace_char(host.as_str(), '-', ' ')
    } else {
        match first_non_empty(props, &name_candidates) {
            Some(name) => name,
            None => instance_name.to_string(),
        }
    };
    DiscoveredDevice {
        name,
        hostname: host,
        udid: None,
        ip_address: preferred_ip_address(addresses),
        port,
        device_type,
        connection_type: ConnectionType::WiFi,
        is_paired: contains(service_type, "mobdev2"),
        product_type,
        os_version: first_non_empty(props, &version_candidates),
        service_type: service_type.to_string(),
    }
}

// ---------------------------------------------------------------------------
// Metadata services
// ---------------------------------------------------------------------------

/// Whether a service only tells more of a device.
pub fn is_metadata_service(service_type: &str) -> (r: bool)
    ensures
        r == (service_type@ == COMPANION_LINK_SERVICE@),
{
    same_text(service_type, COMPANION_LINK_SERVICE)
}

impl DiscoveredDevice {
    /// The service only tells more of a device.
    pub open spec fn is_metadata(self) -> bool {
        self.service_type@ == COMPANION_LINK_SERVICE@
    }

    /// What findings of one device have in common: the host name, else the name.
    pub open spec fn correlation(self) -> Seq<char> {
        if self.hostname@.len() == 0 {
            lower(self.name@)
        } else {
            lower(self.hostname@)
        }
    }
}

/// What findings of one device have in common: the host name, else the name.
pub fn device_correlation_key(device: &DiscoveredDevice) -> (r: String)
    ensures
        r@ == device.correlation(),
{
    if chars_of(device.hostname.as_str()).len() == 0 {
        ascii_lowercase(device.name.as_str())
    } else {
        ascii_lowercase(device.hostname.as_str())
    }
}

/// The metadata for `key` among the first `n` findings: the first whose type is known, else the
/// last one.
pub open spec fn metadata_for(devices: Seq<DiscoveredDevice>, n: int, key: Seq<char>) -> Option<
    DiscoveredDevice,
>
    decreases n,
{
    if n <= 0 {
        None
    } else {
        let before = metadata_for(devices, n - 1, key);
        let d = devices[n - 1];
        if d.is_metadata() && d.correlation() == key && !(before matches Some(e) && e.device_type
            != DeviceType::Unknown) {
            Some(d)
        } else {
            before
        }
    }
}

/// A finding with what the metadata adds to it. Metadata of another known type adds nothing.
pub open spec fn enriched(d: DiscoveredDevice, meta: Option<DiscoveredDevice>) -> DiscoveredDevice {
    match meta {
        Some(m) if d.device_type == DeviceType::Unknown || m.device_type == DeviceType::Unknown
            || d.device_type == m.device_type => DiscoveredDevice {
            device_type: if d.device_type == DeviceType::Unknown {
                m.device_type
            } else {
                d.device_type
            },
            product_type: either(d.product_type, m.product_type),
            os_version: either(d.os_version, m.os_version),
            ..d
        },
        _ => d,
    }
}

/// The findings among the first `n` that are no metadata, each with its metadata from all of them.
pub open spec fn enriched_list(devices: Seq<DiscoveredDevice>, n: int) -> Seq<DiscoveredDevice>
    decreases n,
{
    if n <= 0 {
        seq![]
    } else {
        let head = enriched_list(devices, n - 1);
        let d = devices[n - 1];
        if d.is_metadata() {
            head
        } else {
            head.push(
                enriched(d, metadata_for(devices, devices.len() as int, d.correlation())),
            )
        }
    }
}

fn find_metadata(devices: &Vec<DiscoveredDevice>, key: &str) -> (r: Option<DiscoveredDevice>)
    ensures
        r == metadata_for(devices@, devices@.len() as int, key@),
{
    let mut found: Option<DiscoveredDevice> = None;
    let mut i: usize = 0;
    while i < devices.len()
        invariant
            i <= devices@.len(),
            found == metadata_for(devices@, i as int, key@),
        decreases devices@.len() - i,
    {
        let d: &DiscoveredDevice = &devices[i];
        if is_metadata_service(d.service_type.as_str()) && same_text(
            device_correlation_key(d).as_str(),
            key,
        ) {
            let replace: bool = match &found {
                Some(e) => e.device_type == DeviceType::Unknown,
                None => true,
            };
            if replace {
                found = Some(d.clone());
            }
        }
        i += 1;
    }
    found
}

/// Drops the metadata findings and adds what they tell to the others.
pub fn enrich_and_filter(devices: Vec<DiscoveredDevice>) -> (r: Vec<DiscoveredDevice>)
    ensures
        r@ == enriched_list(devices@, devices@.len() as int),
{
    let mut r: Vec<DiscoveredDevice> = Vec::new();
    let mut i: usize = 0;
    while i < devices.len()
        invariant
            i <= devices@.len(),
            r@ == enriched_list(devices@, i as int),
        decreases devices@.len() - i,
    {
        if !is_metadata_service(devices[i].service_type.as_str()) {
            let mut d: DiscoveredDevice = devices[i].clone();
            let key: String = device_correlation_key(&d);
            if let Some(meta) = find_metadata(&devices, key.as_str()) {
                if d.device_type == DeviceType::Unknown || meta.device_type == DeviceType::Unknown
                    || d.device_type == meta.device_type {
                    if d.device_type == DeviceType::Unknown {
                        d.device_type = meta.device_type;
                    }
                    if d.product_type.is_none() {
                        d.product_type = meta.product_type.clone();
                    }
                    if d.os_version.is_none() {
                        d.os_version = meta.os_version.clone();
                    }
                }
            }
            r.push(d);
        }
        i += 1;
    }
    r
}

/// Enriching drops the metadata findings, keeps the others in their order, and never changes the
/// name, the address or the service of one.
pub proof fn law_enriching_keeps_findings(devices: Seq<DiscoveredDevice>, n: int)
    requires
        0 <= n <= devices.len(),
    ensures
        enriched_list(devices, n).len() == devices.take(n).filter(
            |d: DiscoveredDevice| !d.is_metadata(),
        ).len(),
        forall|i: int|
            0 <= i < enriched_list(devices, n).len() ==> {
                let after = #[trigger] enriched_list(devices, n)[i];
                let before = devices.take(n).filter(|d: DiscoveredDevice| !d.is_metadata())[i];
                after.name == before.name && after.hostname == before.hostname && after.ip_address
                    == before.ip_address && after.port == before.port && after.service_type
                    == before.service_type && !after.is_metadata() && (before.device_type
                    != DeviceType::Unknown ==> after.device_type == before.device_type)
            },
    decreases n,
{
    let keep = |d: DiscoveredDevice| !d.is_metadata();
    reveal(Seq::filter);
    if n > 0 {
        law_enriching_keeps_findings(devices, n - 1);
        assert(devices.take(n).drop_last() =~= devices.take(n - 1));
        assert(devices.take(n).last() == devices[n - 1]);
    } else {
        assert(devices.take(0) =~= seq![]);
    }
}

// ---------------------------------------------------------------------------
// Grouping
// ---------------------------------------------------------------------------

/// The findings of one device.
#[derive(Debug)]
pub struct NetworkDeviceGroup {
    pub name: String,
    pub hostname: String,
    pub pairing_address: Option<Endpoint>,
    pub reconnect_address: Option<Endpoint>,
    pub legacy_core_device: bool,
}

impl View for NetworkDeviceGroup {
    type V = NetworkDeviceGroup;

    open spec fn view(&self) -> NetworkDeviceGroup {
        *self
    }
}

impl DiscoveredDevice {
    /// An Apple TV with a name, found through a service that makes it usable.
    pub open spec fn is_usable_tv(self) -> bool {
        &&& self.device_type == DeviceType::AppleTV
        &&& self.service_type@ == REMOTEPAIRING_SERVICE@ || self.service_type@
            == REMOTEPAIRING_MANUAL_PAIRING_SERVICE@ || self.service_type@ == APPLE_MOBDEV2_SERVICE@
        &&& self.name@.len() > 0
    }

    /// The address and port, where both are known.
    pub open spec fn endpoint(self) -> Option<Endpoint> {
        match (self.ip_address, self.port) {
            (Some(ip), Some(port)) => Some(Endpoint { ip, port }),
            _ => None,
        }
    }
}

/// The group before anything was added to it.
pub open spec fn empty_group(d: DiscoveredDevice) -> NetworkDeviceGroup {
    NetworkDeviceGroup {
        name: d.name,
        hostname: d.hostname,
        pairing_address: None,
        reconnect_address: None,
        legacy_core_device: false,
    }
}

/// A group with one more finding: the first address of each service counts.
pub open spec fn group_with(g: NetworkDeviceGroup, d: DiscoveredDevice) -> NetworkDeviceGroup {
    NetworkDeviceGroup {
        pairing_address: if d.service_type@ == REMOTEPAIRING_MANUAL_PAIRING_SERVICE@ {
            either(g.pairing_address, d.endpoint())
        } else {
            g.pairing_address
        },
        reconnect_address: if d.service_type@ == REMOTEPAIRING_SERVICE@ {
            either(g.reconnect_address, d.endpoint())
        } else {
            g.reconnect_address
        },
        legacy_core_device: g.legacy_core_device || d.service_type@ == APPLE_MOBDEV2_SERVICE@,
        ..g
    }
}

/// The group of the findings with `key` among the first `n`; none where there is no such finding.
pub open spec fn group_for(discovered: Seq<DiscoveredDevice>, n: int, key: Seq<char>) -> Option<
    NetworkDeviceGroup,
>
    decreases n,
{
    if n <= 0 {
        None
    } else {
        let before = group_for(discovered, n - 1, key);
        let d = discovered[n - 1];
        if d.is_usable_tv() && d.correlation() == key {
            Some(
                group_with(
                    match before {
                        Some(g) => g,
                        None => empty_group(d),
                    },
                    d,
                ),
            )
        } else {
            before
        }
    }
}

/// The keys of the first `n` findings, each once, in the order in which they first came.
pub open spec fn group_keys(discovered: Seq<DiscoveredDevice>, n: int) -> Seq<Seq<char>>
    decreases n,
{
    if n <= 0 {
        seq![]
    } else {
        let head = group_keys(discovered, n - 1);
        let d = discovered[n - 1];
        if d.is_usable_tv() && !head.contains(d.correlation()) {
            head.push(d.correlation())
        } else {
            head
        }
    }
}

/// A group that a device can be made of: it has an address or is of the older kind.
pub open spec fn is_reachable(g: NetworkDeviceGroup) -> bool {
    g.pairing_address is Some || g.reconnect_address is Some || g.legacy_core_device
}

/// The pairing identity of a group: its host name, else its name with hyphens for spaces.
pub open spec fn group_identity(g: NetworkDeviceGroup) -> Seq<char> {
    if g.hostname@.len() == 0 {
        with_char_replaced(g.name@, ' ', '-')
    } else {
        g.hostname@
    }
}

/// `device` is the Apple TV that a group stands for.
pub open spec fn is_group_device(g: NetworkDeviceGroup, device: Device, cache_dir: Seq<char>) -> bool {
    let id = synthetic_id(vstd::utf8::encode_utf8(group_identity(g)));
    &&& device.name == g.name
    &&& device.pairing_identity matches Some(identity) && identity@ == group_identity(g)
    &&& device.pairing_cache_dir matches Some(dir) && dir@ == cache_dir
    &&& device.device_id == id
    &&& new_apple_tv(
        Device { device_id: 0, ..device },
        g.name,
        device.pairing_identity->0,
        g.pairing_address,
        g.reconnect_address,
        device.pairing_cache_dir->0,
    )
}

/// The keys, from the first `n` of `keys`, whose group can be used.
pub open spec fn reachable_keys(
    discovered: Seq<DiscoveredDevice>,
    keys: Seq<Seq<char>>,
    n: int,
) -> Seq<Seq<char>>
    decreases n,
{
    if n <= 0 {
        seq![]
    } else {
        let head = reachable_keys(discovered, keys, n - 1);
        if is_reachable(group_for(discovered, discovered.len() as int, keys[n - 1])->0) {
            head.push(keys[n - 1])
        } else {
            head
        }
    }
}

/// The keys of the devices that the findings stand for.
pub open spec fn device_keys(discovered: Seq<DiscoveredDevice>) -> Seq<Seq<char>> {
    let keys = group_keys(discovered, discovered.len() as int);
    reachable_keys(discovered, keys, keys.len() as int)
}

/// The keys of a table.
pub open spec fn table_keys<V>(t: Seq<(Seq<char>, V)>) -> Seq<Seq<char>> {
    t.map_values(|e: (Seq<char>, V)| e.0)
}

fn endpoint_of(d: &DiscoveredDevice) -> (r: Option<Endpoint>)
    ensures
        r == d.endpoint(),
{
    match (&d.ip_address, d.port) {
        (Some(ip), Some(port)) => Some(Endpoint { ip: ip.clone(), port }),
        _ => None,
    }
}

fn usable_tv(d: &DiscoveredDevice) -> (r: bool)
    ensures
        r == d.is_usable_tv(),
{
    let service: &str = d.service_type.as_str();
    d.device_type == DeviceType::AppleTV && (same_text(service, REMOTEPAIRING_SERVICE) || same_text(
        service,
        REMOTEPAIRING_MANUAL_PAIRING_SERVICE,
    ) || same_text(service, APPLE_MOBDEV2_SERVICE)) && chars_of(d.name.as_str()).len() > 0
}

fn extend_group(g: NetworkDeviceGroup, d: &DiscoveredDevice) -> (r: NetworkDeviceGroup)
    ensures
        r == group_with(g, *d),
{
    let service: &str = d.service_type.as_str();
    let mut r: NetworkDeviceGroup = g;
    if same_text(service, APPLE_MOBDEV2_SERVICE) {
        r.legacy_core_device = true;
    }
    if same_text(service, REMOTEPAIRING_MANUAL_PAIRING_SERVICE) {
        if r.pairing_address.is_none() {
            r.pairing_address = endpoint_of(d);
        }
    }
    if same_text(service, REMOTEPAIRING_SERVICE) {
        if r.reconnect_address.is_none() {
            r.reconnect_address = endpoint_of(d);
        }
    }
    r
}

/// The groups among the first `n` findings stand in `t`.
pub open spec fn groups_held(
    discovered: Seq<DiscoveredDevice>,
    n: int,
    t: Seq<(Seq<char>, NetworkDeviceGroup)>,
) -> bool {
    &&& keys_distinct(t)
    &&& table_keys(t) == group_keys(discovered, n)
    &&& forall|i: int|
        0 <= i < t.len() ==> group_for(discovered, n, (#[trigger] t[i]).0) == Some(t[i].1)
}

fn collect_groups(discovered: &Vec<DiscoveredDevice>) -> (r: Table<String, NetworkDeviceGroup>)
    ensures
        groups_held(discovered@, discovered@.len() as int, r@),
{
    let mut groups: Table<String, NetworkDeviceGroup> = Table::new();
    let mut i: usize = 0;
    proof {
        assert(table_keys(groups@) =~= group_keys(discovered@, 0));
    }
    while i < discovered.len()
        invariant
            i <= discovered@.len(),
            groups_held(discovered@, i as int, groups@),
        decreases discovered@.len() - i,
    {
        let d: &DiscoveredDevice = &discovered[i];
        let ghost before = groups@;
        let ghost keys = group_keys(discovered@, i as int);
        if usable_tv(d) {
            let key: String = device_correlation_key(d);
            let at: usize = groups.index_of(&key);
            proof {
                crate::table::lemma_slot(before, key@, 0);
            }
            if at < groups.entries.len() {
                let (k, g): (String, NetworkDeviceGroup) = groups.entries.remove(at);
                let extended: NetworkDeviceGroup = extend_group(g, d);
                groups.entries.insert(at, (k, extended));
                proof {
                    let after = groups@;
                    assert(after =~= before.update(at as int, (before[at as int].0, extended)));
                    assert(table_keys(after) =~= table_keys(before));
                    assert(keys[at as int] == key@);
                    assert(keys.contains(d.correlation()));
                    assert forall|j: int| 0 <= j < after.len() implies group_for(
                        discovered@,
                        i + 1,
                        (#[trigger] after[j]).0,
                    ) == Some(after[j].1) by {
                        assert(before[j].0 == after[j].0);
                        if j != at {
                            assert(before[j].0 != before[at as int].0);
                        }
                    }
                }
            } else {
                let fresh: NetworkDeviceGroup = NetworkDeviceGroup {
                    name: d.name.clone(),
                    hostname: d.hostname.clone(),
                    pairing_address: None,
                    reconnect_address: None,
                    legacy_core_device: false,
                };
                let extended: NetworkDeviceGroup = extend_group(fresh, d);
                let ghost k = key@;
                groups.entries.push((key, extended));
                proof {
                    let after = groups@;
                    assert(after =~= before.push((k, extended)));
                    assert(table_keys(after) =~= table_keys(before).push(k));
                    if keys.contains(k) {
                        let j = choose|j: int| 0 <= j < keys.len() && keys[j] == k;
                        assert(before[j].0 == k);
                    }
                    lemma_no_group(discovered@, i as int, k);
                    assert forall|j: int| 0 <= j < after.len() implies group_for(
                        discovered@,
                        i + 1,
                        (#[trigger] after[j]).0,
                    ) == Some(after[j].1) by {
                        if j < before.len() {
                            assert(before[j].0 == after[j].0);
                        }
                    }
                }
            }
        }
        i += 1;
    }
    groups
}

/// A key that no finding has so far has no group.
proof fn lemma_no_group(discovered: Seq<DiscoveredDevice>, n: int, key: Seq<char>)
    requires
        0 <= n <= discovered.len(),
    ensures
        group_for(discovered, n, key) is None <==> !group_keys(discovered, n).contains(key),
    decreases n,
{
    if n > 0 {
        lemma_no_group(discovered, n - 1, key);
        let head = group_keys(discovered, n - 1);
        let d = discovered[n - 1];
        if d.is_usable_tv() && !head.contains(d.correlation()) {
            let keys = head.push(d.correlation());
            assert(keys.contains(key) <==> head.contains(key) || key == d.correlation()) by {
                if head.contains(key) {
                    let j = choose|j: int| 0 <= j < head.len() && head[j] == key;
                    assert(keys[j] == key);
                }
                assert(keys[head.len() as int] == d.correlation());
            }
        }
    }
}

fn group_device(g: &NetworkDeviceGroup, cache_dir: &str) -> (r: Device)
    ensures
        is_group_device(*g, r, cache_dir@),
{
    let identity: String = if chars_of(g.hostname.as_str()).len() == 0 {
        replace_char(g.name.as_str(), ' ', '-')
    } else {
        g.hostname.clone()
    };
    let id: u32 = synthetic_device_id(identity.as_str());
    let mut device: Device = Device::new_tvos_with_addresses(
        g.name.clone(),
        identity,
        g.pairing_address.clone(),
        g.reconnect_address.clone(),
        cache_dir.to_string(),
    );
    device.device_id = id;
    device
}

/// The Apple TVs that the findings stand for: one for each host, in the order in which they first
/// came.
pub fn group_network_devices(discovered: &Vec<DiscoveredDevice>, cache_dir: &str) -> (r: Vec<
    Device,
>)
    ensures
        r@.len() == device_keys(discovered@).len(),
        forall|i: int|
            0 <= i < r@.len() ==> is_group_device(
                group_for(
                    discovered@,
                    discovered@.len() as int,
                    device_keys(discovered@)[i],
                )->0,
                #[trigger] r@[i],
                cache_dir@,
            ),
{
    let groups: Table<String, NetworkDeviceGroup> = collect_groups(discovered);
    let ghost t = groups@;
    let ghost total = discovered@.len() as int;
    let ghost keys = group_keys(discovered@, total);
    let mut r: Vec<Device> = Vec::new();
    let mut i: usize = 0;
    while i < groups.entries.len()
        invariant
            i <= groups.entries@.len(),
            t == groups@,
            total == discovered@.len(),
            keys == group_keys(discovered@, total),
            groups_held(discovered@, total, t),
            r@.len() == reachable_keys(discovered@, keys, i as int).len(),
            forall|j: int|
                0 <= j < r@.len() ==> is_group_device(
                    group_for(
                        discovered@,
                        total,
                        reachable_keys(discovered@, keys, i as int)[j],
                    )->0,
                    #[trigger] r@[j],
                    cache_dir@,
                ),
        decreases groups.entries@.len() - i,
    {
        let g: &NetworkDeviceGroup = &groups.entries[i].1;
        proof {
            assert(keys[i as int] == table_keys(t)[i as int]);
            assert(group_for(discovered@, total, t[i as int].0) == Some(t[i as int].1));
        }
        if g.pairing_address.is_some() || g.reconnect_address.is_some() || g.legacy_core_device {
            r.push(group_device(g, cache_dir));
        }
        i += 1;
    }
    proof {
        assert(keys.len() == t.len());
    }
    r
}

/// A device that was only seen on the network has no identifier yet: none is ever made up, and nothing
/// counts as authenticated.
pub proof fn law_no_identifier_is_made_up(
    g: NetworkDeviceGroup,
    device: Device,
    cache_dir: Seq<char>,
)
    requires
        is_group_device(g, device, cache_dir),
    ensures
        device.udid@.len() == 0,
        !device.core_device_authenticated,
{
}

/// No two devices of one scan come from the same host.
pub proof fn law_one_device_per_host(discovered: Seq<DiscoveredDevice>)
    ensures
        forall|i: int, j: int|
            0 <= i < j < device_keys(discovered).len() ==> device_keys(discovered)[i]
                != device_keys(discovered)[j],
{
    let n = discovered.len() as int;
    let keys = group_keys(discovered, n);
    lemma_group_keys_distinct(discovered, n);
    lemma_reachable_keys(discovered, keys, keys.len() as int);
}

proof fn lemma_group_keys_distinct(discovered: Seq<DiscoveredDevice>, n: int)
    requires
        0 <= n <= discovered.len(),
    ensures
        forall|i: int, j: int|
            0 <= i < j < group_keys(discovered, n).len() ==> group_keys(discovered, n)[i]
                != group_keys(discovered, n)[j],
    decreases n,
{
    if n > 0 {
        lemma_group_keys_distinct(discovered, n - 1);
        let head = group_keys(discovered, n - 1);
        let key = discovered[n - 1].correlation();
        assert forall|i: int| 0 <= i < head.len() && !head.contains(key) implies head[i] != key by {}
    }
}

/// The reachable keys are among the keys, and stay apart.
proof fn lemma_reachable_keys(discovered: Seq<DiscoveredDevice>, keys: Seq<Seq<char>>, n: int)
    requires
        0 <= n <= keys.len(),
        forall|i: int, j: int| 0 <= i < j < keys.len() ==> keys[i] != keys[j],
    ensures
        forall|i: int|
            0 <= i < reachable_keys(discovered, keys, n).len() ==> keys.take(n).contains(
                #[trigger] reachable_keys(discovered, keys, n)[i],
            ),
        forall|i: int, j: int|
            0 <= i < j < reachable_keys(discovered, keys, n).len() ==> reachable_keys(
                discovered,
                keys,
                n,
            )[i] != reachable_keys(discovered, keys, n)[j],
    decreases n,
{
    if n > 0 {
        lemma_reachable_keys(discovered, keys, n - 1);
        let head = reachable_keys(discovered, keys, n - 1);
        assert forall|i: int|
            0 <= i < reachable_keys(discovered, keys, n).len() implies keys.take(n).contains(
            #[trigger] reachable_keys(discovered, keys, n)[i],
        ) by {
            if i < head.len() {
                assert(keys.take(n - 1).contains(head[i]));
                let earlier = keys.take(n - 1);
                let j = choose|j: int| 0 <= j < earlier.len() && earlier[j] == head[i];
                assert(keys.take(n)[j] == head[i]);
            } else {
                assert(keys.take(n)[n - 1] == keys[n - 1]);
            }
        }
        assert forall|i: int| 0 <= i < head.len() implies head[i] != keys[n - 1] by {
            assert(keys.take(n - 1).contains(head[i]));
        }
    }
}

/// Every Apple TV that is found with an address for pairing or reconnecting becomes a device.
pub proof fn law_found_devices_are_kept(discovered: Seq<DiscoveredDevice>, k: int)
    requires
        0 <= k < discovered.len(),
        discovered[k].is_usable_tv(),
        discovered[k].service_type@ == APPLE_MOBDEV2_SERVICE@ || discovered[k].endpoint() is Some,
    ensures
        device_keys(discovered).contains(discovered[k].correlation()),
{
    let n = discovered.len() as int;
    let key = discovered[k].correlation();
    let keys = group_keys(discovered, n);
    lemma_group_has(discovered, n, k);
    lemma_no_group(discovered, n, key);
    let i = choose|i: int| 0 <= i < keys.len() && keys[i] == key;
    lemma_reachable_key_is_kept(discovered, keys, keys.len() as int, i);
}

proof fn lemma_group_has(discovered: Seq<DiscoveredDevice>, n: int, k: int)
    requires
        0 <= k < n <= discovered.len(),
        discovered[k].is_usable_tv(),
        discovered[k].service_type@ == APPLE_MOBDEV2_SERVICE@ || discovered[k].endpoint() is Some,
    ensures
        group_for(discovered, n, discovered[k].correlation()) matches Some(g) && is_reachable(g),
    decreases n,
{
    reveal_strlit("_apple-mobdev2._tcp.local.");
    if k < n - 1 {
        lemma_group_has(discovered, n - 1, k);
    }
}

proof fn lemma_reachable_key_is_kept(
    discovered: Seq<DiscoveredDevice>,
    keys: Seq<Seq<char>>,
    n: int,
    i: int,
)
    requires
        0 <= i < n <= keys.len(),
        is_reachable(group_for(discovered, discovered.len() as int, keys[i])->0),
    ensures
        reachable_keys(discovered, keys, n).contains(keys[i]),
    decreases n,
{
    let all = reachable_keys(discovered, keys, n);
    let head = reachable_keys(discovered, keys, n - 1);
    if i == n - 1 {
        assert(all[head.len() as int] == keys[i]);
    } else {
        lemma_reachable_key_is_kept(discovered, keys, n - 1, i);
        let j = choose|j: int| 0 <= j < head.len() && head[j] == keys[i];
        assert(all[j] == keys[i]);
    }
}

// ---------------------------------------------------------------------------
// Devices that are gone
// ---------------------------------------------------------------------------

/// The scans in a row, this one among them, in which `id` was missed.
pub open spec fn misses(counts: Map<u32, u32>, id: u32) -> int {
    1 + if counts.contains_key(id) {
        counts[id] as int
    } else {
        0
    }
}

/// A device that is present by what was known, is not in the scan, and was now missed often enough.
pub open spec fn is_gone(
    present: Set<u32>,
    current: Set<u32>,
    counts: Map<u32, u32>,
    required: u32,
    id: u32,
) -> bool {
    present.contains(id) && !current.contains(id) && misses(counts, id) >= required && misses(
        counts,
        id,
    ) >= 1
}

/// The count of misses of `id` after a scan.
pub open spec fn misses_after(
    present: Set<u32>,
    current: Set<u32>,
    counts: Map<u32, u32>,
    required: u32,
    id: u32,
) -> Option<int> {
    if current.contains(id) || is_gone(present, current, counts, required, id) {
        None
    } else if present.contains(id) {
        Some(misses(counts, id))
    } else if counts.contains_key(id) {
        Some(counts[id] as int)
    } else {
        None
    }
}

proof fn lemma_push_contains(s: Seq<u32>, x: u32)
    ensures
        forall|y: u32| #[trigger] s.push(x).contains(y) == (s.contains(y) || y == x),
{
    assert forall|y: u32| #[trigger] s.push(x).contains(y) == (s.contains(y) || y == x) by {
        if s.contains(y) {
            let j = choose|j: int| 0 <= j < s.len() && s[j] == y;
            assert(s.push(x)[j] == y);
        }
        assert(s.push(x)[s.len() as int] == x);
    }
}

/// The members of a set, in some order.
fn members(set: &HashSet<u32>) -> (r: Vec<u32>)
    ensures
        r@.no_duplicates(),
        r@.to_set() == set@,
{
    broadcast use vstd::std_specs::hash::group_hash_axioms;

    let mut r: Vec<u32> = Vec::new();
    for id in it: set.iter()
        invariant
            it.seq().no_duplicates(),
            it.seq().unref().to_set() == set@,
            r@ == it.seq().unref().take(it.index()),
            r@.no_duplicates(),
            it.index() == it.seq().len() ==> r@.to_set() == set@,
    {
        let ghost before = r@;
        r.push(*id);
        proof {
            assert(r@ =~= it.seq().unref().take(it.index() + 1));
            assert forall|j: int| 0 <= j < before.len() implies before[j] != *id by {
                assert(before[j] == *it.seq()[j]);
                assert(it.seq()[j] != it.seq()[it.index()]);
            }
            assert(it.index() + 1 == it.seq().len() ==> r@ =~= it.seq().unref());
        }
    }
    r
}

fn clear_seen(seen: &Vec<u32>, miss_counts: &mut HashMap<u32, u32>)
    ensures
        final(miss_counts)@ == old(miss_counts)@.remove_keys(seen@.to_set()),
{
    broadcast use vstd::std_specs::hash::group_hash_axioms;

    let ghost start = miss_counts@;
    let mut i: usize = 0;
    proof {
        assert(start.remove_keys(seen@.take(0).to_set()) =~= start);
    }
    while i < seen.len()
        invariant
            i <= seen@.len(),
            miss_counts@ == start.remove_keys(seen@.take(i as int).to_set()),
        decreases seen@.len() - i,
    {
        miss_counts.remove(&seen[i]);
        proof {
            let next = seen@.take(i + 1);
            assert(next =~= seen@.take(i as int).push(seen@[i as int]));
            lemma_push_contains(seen@.take(i as int), seen@[i as int]);
            assert(next.to_set() =~= seen@.take(i as int).to_set().insert(seen@[i as int]));
            assert(miss_counts@ =~= start.remove_keys(next.to_set()));
        }
        i += 1;
    }
    proof {
        assert(seen@.take(seen@.len() as int) =~= seen@);
    }
}

/// The devices that are gone after a scan: those that were missed in `required_misses` scans in a
/// row, or in one where that is zero. What is seen again, or is gone, is no longer counted.
pub fn disconnected_after_missed_scans(
    present_ids: &mut HashSet<u32>,
    current_ids: &HashSet<u32>,
    miss_counts: &mut HashMap<u32, u32>,
    required_misses: u32,
) -> (r: Vec<u32>)
    requires
        forall|id: u32|
            old(present_ids)@.contains(id) && !current_ids@.contains(id) ==> #[trigger] misses(
                old(miss_counts)@,
                id,
            ) <= u32::MAX,
    ensures
        r@.no_duplicates(),
        forall|id: u32|
            r@.contains(id) == #[trigger] is_gone(
                old(present_ids)@,
                current_ids@,
                old(miss_counts)@,
                required_misses,
                id,
            ),
        forall|id: u32| #[trigger]
            final(present_ids)@.contains(id) == (old(present_ids)@.contains(id) && !is_gone(
                old(present_ids)@,
                current_ids@,
                old(miss_counts)@,
                required_misses,
                id,
            )),
        forall|id: u32|
            match #[trigger] misses_after(
                old(present_ids)@,
                current_ids@,
                old(miss_counts)@,
                required_misses,
                id,
            ) {
                Some(n) => final(miss_counts)@.contains_key(id) && final(miss_counts)@[id] == n,
                None => !final(miss_counts)@.contains_key(id),
            },
{
    broadcast use vstd::std_specs::hash::group_hash_axioms;

    let ghost present = present_ids@;
    let ghost current = current_ids@;
    let ghost counts = miss_counts@;
    let ghost gone = |id: u32| is_gone(present, current, counts, required_misses, id);
    let seen: Vec<u32> = members(current_ids);
    clear_seen(&seen, miss_counts);
    let known: Vec<u32> = members(present_ids);
    let mut r: Vec<u32> = Vec::new();
    let mut i: usize = 0;
    while i < known.len()
        invariant
            i <= known@.len(),
            known@.no_duplicates(),
            known@.to_set() == present,
            current == current_ids@,
            gone == (|id: u32| is_gone(present, current, counts, required_misses, id)),
            forall|id: u32|
                present.contains(id) && !current.contains(id) ==> #[trigger] misses(counts, id)
                    <= u32::MAX,
            r@.no_duplicates(),
            forall|id: u32| #[trigger]
                r@.contains(id) == (known@.take(i as int).contains(id) && gone(id)),
            forall|id: u32| #[trigger]
                present_ids@.contains(id) == (present.contains(id) && !(known@.take(
                    i as int,
                ).contains(id) && gone(id))),
            forall|id: u32|
                known@.take(i as int).contains(id) ==> match #[trigger] misses_after(
                    present,
                    current,
                    counts,
                    required_misses,
                    id,
                ) {
                    Some(n) => miss_counts@.contains_key(id) && miss_counts@[id] == n,
                    None => !miss_counts@.contains_key(id),
                },
            forall|id: u32| #![trigger miss_counts@.contains_key(id)]
                !known@.take(i as int).contains(id) ==> miss_counts@.contains_key(id) == (
                counts.contains_key(id) && !current.contains(id)) && (miss_counts@.contains_key(id)
                    ==> miss_counts@[id] == counts[id]),
        decreases known@.len() - i,
    {
        let id: u32 = known[i];
        let ghost before = known@.take(i as int);
        let ghost after = known@.take(i + 1);
        proof {
            assert(after =~= before.push(id));
            lemma_push_contains(before, id);
            assert(!before.contains(id)) by {
                if before.contains(id) {
                    let j = choose|j: int| 0 <= j < before.len() && before[j] == id;
                    assert(known@[j] == known@[i as int]);
                }
            }
            assert(known@.to_set().contains(known@[i as int]));
            assert(present.contains(id));
        }
        if !current_ids.contains(&id) {
            let counted: u32 = match miss_counts.get(&id) {
                Some(n) => *n,
                None => 0,
            };
            proof {
                assert(misses(counts, id) == counted + 1);
            }
            let misses_now: u32 = counted + 1;
            if misses_now >= required_misses {
                present_ids.remove(&id);
                miss_counts.remove(&id);
                let ghost rb = r@;
                r.push(id);
                proof {
                    lemma_push_contains(rb, id);
                    assert(!rb.contains(id));
                    assert forall|j: int| 0 <= j < rb.len() implies rb[j] != id by {}
                }
            } else {
                miss_counts.insert(id, misses_now);
            }
        }
        i += 1;
    }
    proof {
        assert(known@.take(known@.len() as int) =~= known@);
        assert forall|id: u32| #[trigger] known@.contains(id) == present.contains(id) by {
            assert(known@.to_set().contains(id) == known@.contains(id));
        }
    }
    r
}

/// A device that was just seen is not reported as gone before it was missed as often as required.
pub proof fn law_gone_only_after_misses(
    present: Set<u32>,
    current: Set<u32>,
    counts: Map<u32, u32>,
    required: u32,
    id: u32,
)
    requires
        !counts.contains_key(id),
        required > 1,
    ensures
        !is_gone(present, current, counts, required, id),
        present.contains(id) && !current.contains(id) ==> misses_after(
            present,
            current,
            counts,
            required,
            id,
        ) == Some(1int),
{
}

/// A device that a scan sees is neither gone nor counted as missed.
pub proof fn law_seen_devices_stay(
    present: Set<u32>,
    current: Set<u32>,
    counts: Map<u32, u32>,
    required: u32,
    id: u32,
)
    requires
        current.contains(id),
    ensures
        !is_gone(present, current, counts, required, id),
        misses_after(present, current, counts, required, id) is None,
{
}

// ---------------------------------------------------------------------------
// What a scan is for
// ---------------------------------------------------------------------------

/// A finding by which an Apple TV can be used: a named one, over a service for pairing or
/// reconnecting with its address, or over the one of earlier systems.
pub open spec fn leads_to_tv(d: DiscoveredDevice) -> bool {
    &&& d.device_type == DeviceType::AppleTV
    &&& d.name@.len() > 0
    &&& d.service_type@ == "_apple-mobdev2._tcp.local."@ || ((d.service_type@
        == "_remotepairing._tcp.local."@ || d.service_type@
        == "_remotepairing-manual-pairing._tcp.local."@) && d.ip_address is Some && d.port is Some)
}

/// The host of a finding, or its name where it has no host, in lower case.
pub open spec fn host_key(d: DiscoveredDevice) -> Seq<char> {
    lower(
        if d.hostname@.len() > 0 {
            d.hostname@
        } else {
            d.name@
        },
    )
}

/// The devices of a scan are those of the hosts for which there is a finding that leads to an Apple
/// TV, and no others.
pub proof fn law_devices_are_the_apple_tvs_found(discovered: Seq<DiscoveredDevice>, key: Seq<char>)
    ensures
        device_keys(discovered).contains(key) <==> exists|k: int|
            0 <= k < discovered.len() && leads_to_tv(#[trigger] discovered[k]) && host_key(
                discovered[k],
            ) == key,
{
    let n = discovered.len() as int;
    let keys = group_keys(discovered, n);
    lemma_service_names();
    if device_keys(discovered).contains(key) {
        let i = choose|i: int|
            0 <= i < device_keys(discovered).len() && device_keys(discovered)[i] == key;
        lemma_kept_key_is_reachable(discovered, keys, keys.len() as int, i);
        lemma_no_group(discovered, n, key);
        lemma_reachable_has_cause(discovered, n, key);
    }
    if exists|k: int|
        0 <= k < discovered.len() && leads_to_tv(#[trigger] discovered[k]) && host_key(
            discovered[k],
        ) == key {
        let k = choose|k: int|
            0 <= k < discovered.len() && leads_to_tv(#[trigger] discovered[k]) && host_key(
                discovered[k],
            ) == key;
        law_found_devices_are_kept(discovered, k);
    }
}

proof fn lemma_service_names()
    ensures
        APPLE_MOBDEV2_SERVICE@ == "_apple-mobdev2._tcp.local."@,
        REMOTEPAIRING_SERVICE@ == "_remotepairing._tcp.local."@,
        REMOTEPAIRING_MANUAL_PAIRING_SERVICE@ == "_remotepairing-manual-pairing._tcp.local."@,
        APPLE_MOBDEV2_SERVICE@.len() == 26,
        REMOTEPAIRING_SERVICE@.len() == 26,
        REMOTEPAIRING_SERVICE@[1] == 'r',
        APPLE_MOBDEV2_SERVICE@[1] == 'a',
        REMOTEPAIRING_MANUAL_PAIRING_SERVICE@.len() == 41,
{
    reveal_strlit("_apple-mobdev2._tcp.local.");
    reveal_strlit("_remotepairing._tcp.local.");
    reveal_strlit("_remotepairing-manual-pairing._tcp.local.");
}

proof fn lemma_kept_key_is_reachable(
    discovered: Seq<DiscoveredDevice>,
    keys: Seq<Seq<char>>,
    n: int,
    i: int,
)
    requires
        0 <= n <= keys.len(),
        0 <= i < reachable_keys(discovered, keys, n).len(),
    ensures
        keys.contains(reachable_keys(discovered, keys, n)[i]),
        is_reachable(
            group_for(
                discovered,
                discovered.len() as int,
                reachable_keys(discovered, keys, n)[i],
            )->0,
        ),
    decreases n,
{
    let head = reachable_keys(discovered, keys, n - 1);
    if i < head.len() {
        lemma_kept_key_is_reachable(discovered, keys, n - 1, i);
    } else {
        assert(keys.contains(keys[n - 1]));
    }
}

proof fn lemma_reachable_has_cause(discovered: Seq<DiscoveredDevice>, n: int, key: Seq<char>)
    requires
        0 <= n <= discovered.len(),
        is_reachable(group_for(discovered, n, key)->0),
        group_for(discovered, n, key) is Some,
    ensures
        exists|k: int|
            0 <= k < n && leads_to_tv(#[trigger] discovered[k]) && host_key(discovered[k]) == key,
    decreases n,
{
    lemma_service_names();
    let d = discovered[n - 1];
    let before = group_for(discovered, n - 1, key);
    if before is Some && is_reachable(before->0) {
        lemma_reachable_has_cause(discovered, n - 1, key);
    } else {
        assert(leads_to_tv(d) && host_key(d) == key);
    }
}

/// The addresses of a device are those of findings of its host: that for pairing comes from the
/// service for pairing, that for reconnecting from the other, each wherever one was found. The name
/// is that of a finding too.
pub proof fn law_addresses_come_from_findings(
    discovered: Seq<DiscoveredDevice>,
    n: int,
    key: Seq<char>,
)
    requires
        0 <= n <= discovered.len(),
        group_for(discovered, n, key) is Some,
    ensures
        ({
            let g = group_for(discovered, n, key)->0;
            &&& g.pairing_address matches Some(e) ==> exists|k: int|
                0 <= k < n && (#[trigger] discovered[k]).service_type@
                    == "_remotepairing-manual-pairing._tcp.local."@ && discovered[k].ip_address
                    == Some(e.ip) && discovered[k].port == Some(e.port) && host_key(discovered[k])
                    == key
            &&& g.reconnect_address matches Some(e) ==> exists|k: int|
                0 <= k < n && (#[trigger] discovered[k]).service_type@
                    == "_remotepairing._tcp.local."@ && discovered[k].ip_address == Some(e.ip)
                    && discovered[k].port == Some(e.port) && host_key(discovered[k]) == key
            &&& exists|k: int|
                0 <= k < n && (#[trigger] discovered[k]).name == g.name && discovered[k].hostname
                    == g.hostname && host_key(discovered[k]) == key && discovered[k].device_type
                    == DeviceType::AppleTV
            &&& forall|k: int|
                0 <= k < n && leads_to_tv(#[trigger] discovered[k]) && host_key(discovered[k]) == key
                    ==> {
                    &&& discovered[k].service_type@ == "_remotepairing-manual-pairing._tcp.local."@
                        ==> g.pairing_address is Some
                    &&& discovered[k].service_type@ == "_remotepairing._tcp.local."@
                        ==> g.reconnect_address is Some
                }
        }),
    decreases n,
{
    lemma_service_names();
    let d = discovered[n - 1];
    let before = group_for(discovered, n - 1, key);
    let g = group_for(discovered, n, key)->0;
    if before is Some {
        law_addresses_come_from_findings(discovered, n - 1, key);
        let b = before->0;
        if b.pairing_address is Some {
            let e = b.pairing_address->0;
            let k = choose|k: int|
                0 <= k < n - 1 && (#[trigger] discovered[k]).service_type@
                    == "_remotepairing-manual-pairing._tcp.local."@ && discovered[k].ip_address
                    == Some(e.ip) && discovered[k].port == Some(e.port) && host_key(discovered[k])
                    == key;
            assert(discovered[k].ip_address == Some(e.ip));
        }
        if b.reconnect_address is Some {
            let e = b.reconnect_address->0;
            let k = choose|k: int|
                0 <= k < n - 1 && (#[trigger] discovered[k]).service_type@
                    == "_remotepairing._tcp.local."@ && discovered[k].ip_address == Some(e.ip)
                    && discovered[k].port == Some(e.port) && host_key(discovered[k]) == key;
            assert(discovered[k].ip_address == Some(e.ip));
        }
        let k = choose|k: int|
            0 <= k < n - 1 && (#[trigger] discovered[k]).name == b.name && discovered[k].hostname
                == b.hostname && host_key(discovered[k]) == key && discovered[k].device_type
                == DeviceType::AppleTV;
        assert(discovered[k].name == g.name);
    } else {
        assert(d.is_usable_tv() && d.correlation() == key);
        assert(host_key(d) == key);
        assert forall|k: int|
            0 <= k < n && leads_to_tv(#[trigger] discovered[k]) && host_key(discovered[k])
                == key implies k == n - 1 by {
            if k < n - 1 {
                lemma_group_has(discovered, n - 1, k);
            }
        }
        assert(discovered[n - 1].name == g.name);
    }
}

/// A device of a scan has the name and the addresses of its group, and is a television.
pub proof fn law_group_device_keeps_its_group(
    g: NetworkDeviceGroup,
    device: Device,
    cache_dir: Seq<char>,
)
    requires
        is_group_device(g, device, cache_dir),
    ensures
        device.name == g.name,
        device.pairing_address == g.pairing_address,
        device.reconnect_address == g.reconnect_address,
        device.device_class matches Some(c) && c@ == "AppleTV"@,
        device.usbmuxd_device is None,
        device.pairing_identity matches Some(i) && (g.hostname@.len() > 0 ==> i@ == g.hostname@),
{
}

/// What a product is, is told by the start of its name; a class is told by its name as a whole.
pub proof fn law_types_of_devices(s: Seq<char>)
    ensures
        type_of_product(s) == DeviceType::AppleTV <==> is_prefix("AppleTV"@, s),
        type_of_product(s) == DeviceType::IPhone <==> is_prefix("iPhone"@, s),
        type_of_product(s) == DeviceType::IPad <==> is_prefix("iPad"@, s),
        type_of_product(s) == DeviceType::AppleMac <==> is_prefix("Mac"@, s),
        type_of_class(s) == DeviceType::AppleTV <==> s == "AppleTV"@,
        type_of_class(s) == DeviceType::IPhone <==> s == "iPhone"@,
        type_of_class(s) == DeviceType::IPad <==> s == "iPad"@,
        type_of_class(s) == DeviceType::AppleMac <==> s == "Mac"@,
        type_of_class(s) != DeviceType::Unknown ==> type_of_product(s) == type_of_class(s),
{
    reveal_strlit("AppleTV");
    reveal_strlit("iPhone");
    reveal_strlit("iPad");
    reveal_strlit("Mac");
    let words = seq!["AppleTV"@, "iPhone"@, "iPad"@, "Mac"@];
    assert forall|i: int| 0 <= i < 4 && is_prefix(#[trigger] words[i], s) implies s.len() >= 3
        && s[0] == words[i][0] && s[1] == words[i][1] && s[2] == words[i][2] by {
        let w = words[i];
        assert(s.subrange(0, w.len() as int)[0] == s[0]);
        assert(s.subrange(0, w.len() as int)[1] == s[1]);
        assert(s.subrange(0, w.len() as int)[2] == s[2]);
    }
    assert(words[0] == "AppleTV"@ && words[1] == "iPhone"@ && words[2] == "iPad"@ && words[3]
        == "Mac"@);
    assert(s.subrange(0, s.len() as int) =~= s);
}

/// The class of a device, where it is told, decides its type, and its product otherwise.
pub proof fn law_class_comes_first(props: Seq<(Seq<char>, Seq<char>)>, v: Seq<char>)
    requires
        v.len() > 0,
    ensures
        held(props, "DeviceClass"@) == Some(v) ==> type_in(props) == type_of_class(v),
        held(props, "DeviceClass"@) is None && held(props, "deviceClass"@) is None && held(
            props,
            "ProductType"@,
        ) == Some(v) ==> type_in(props) == type_of_product(v),
        held(props, "DeviceClass"@) is None && held(props, "deviceClass"@) is None && held(
            props,
            "ProductType"@,
        ) is None && held(props, "model"@) == Some(v) ==> type_in(props) == type_of_product(v),
        held(props, "DeviceClass"@) is None && held(props, "deviceClass"@) is None && held(
            props,
            "ProductType"@,
        ) is None && held(props, "model"@) is None && held(props, "rpMd"@) == Some(v) ==> type_in(
            props,
        ) == type_of_product(v),
        props.len() == 0 ==> type_in(props) == DeviceType::Unknown,
{
    let c = class_keys();
    let m = model_keys();
    assert(c[0] == "DeviceClass"@ && c[1] == "deviceClass"@);
    assert(m[0] == "ProductType"@ && m[1] == "model"@ && m[2] == "rpMd"@);
    reveal_with_fuel(first_value, 4);
}

/// The name in a full service name is what stands before the service, and a host name is what stands
/// before `.local`, whatever dots end either.
pub proof fn law_names_are_taken_apart(name: Seq<char>, service: Seq<char>)
    requires
        name.len() > 0,
        service.len() > 0,
        service.last() != '.',
    ensures
        instance_part(name + seq!['.'] + service, service) == name,
        instance_part(name + seq!['.'] + service + seq!['.'], service.push('.')) == name,
        short_host(name + ".local"@) == name,
        short_host(name + ".local."@) == name,
{
    let full = name + seq!['.'] + service;
    assert(full.last() == service.last());
    lemma_untrimmed(full);
    lemma_untrimmed(service);
    let cut = full.len() - service.len() - 1;
    assert(full.skip(full.len() - service.len()) =~= service);
    assert(full.take(cut) =~= name);
    let dotted = full + seq!['.'];
    assert(dotted.drop_last() =~= full);
    assert(service.push('.').drop_last() =~= service);
    reveal_strlit(".local");
    reveal_strlit(".local.");
    let host = name + ".local"@;
    assert(host.last() == 'l');
    lemma_untrimmed(host);
    assert(host.skip(host.len() - 6) =~= ".local"@);
    assert(host.take(host.len() - 6) =~= name);
    let dotted_host = name + ".local."@;
    assert(dotted_host.drop_last() =~= host);
    assert(dotted_host.last() == '.');
}

proof fn lemma_untrimmed(s: Seq<char>)
    requires
        s.len() > 0,
        s.last() != '.',
    ensures
        without_trailing(s, '.') == s,
        without_trailing(s.push('.'), '.') == s,
{
    assert(s.push('.').drop_last() =~= s);
}

/// The chosen address is one of those given, of the older kind wherever there is one, and there is one
/// wherever any is given.
pub proof fn law_older_addresses_are_preferred(addresses: Seq<IpAddress>, r: Option<IpAddress>)
    requires
        best_text(addresses, r),
    ensures
        r is Some <==> addresses.len() > 0,
        r matches Some(a) ==> addresses.contains(a),
        (exists|i: int| 0 <= i < addresses.len() && (#[trigger] addresses[i]).ipv4) ==> (
        r matches Some(a) && a.ipv4),
        r matches Some(a) ==> forall|i: int|
            0 <= i < addresses.len() && (#[trigger] addresses[i]).ipv4 == a.ipv4 ==> text_le(
                a.text@,
                addresses[i].text@,
            ),
{
    if let Some(a) = r {
        let i = choose|i: int| #[trigger] preferred(addresses, i) && addresses[i] == a;
        assert(addresses[i] == a);
        assert forall|k: int|
            0 <= k < addresses.len() && (#[trigger] addresses[k]).ipv4 == a.ipv4 implies text_le(
            a.text@,
            addresses[k].text@,
        ) by {
            assert(preferred(addresses, k));
        }
    }
}

/// Metadata is that of the same host, found with a service for metadata, and its type is known
/// wherever any metadata of the host tells a type.
pub proof fn law_metadata_is_of_the_host(devices: Seq<DiscoveredDevice>, n: int, key: Seq<char>)
    requires
        0 <= n <= devices.len(),
    ensures
        metadata_for(devices, n, key) matches Some(m) ==> exists|k: int|
            0 <= k < n && #[trigger] devices[k] == m && m.service_type@
                == "_companion-link._tcp.local."@ && host_key(m) == key,
        forall|k: int|
            0 <= k < n && (#[trigger] devices[k]).service_type@ == "_companion-link._tcp.local."@
                && host_key(devices[k]) == key ==> {
                &&& metadata_for(devices, n, key) is Some
                &&& devices[k].device_type != DeviceType::Unknown ==> metadata_for(
                    devices,
                    n,
                    key,
                )->0.device_type != DeviceType::Unknown
            },
    decreases n,
{
    reveal_strlit("_companion-link._tcp.local.");
    if n > 0 {
        law_metadata_is_of_the_host(devices, n - 1, key);
        let d = devices[n - 1];
        let before = metadata_for(devices, n - 1, key);
        if metadata_for(devices, n, key) == before && before is Some {
            let k = choose|k: int|
                0 <= k < n - 1 && #[trigger] devices[k] == before->0 && before->0.service_type@
                    == "_companion-link._tcp.local."@ && host_key(before->0) == key;
            assert(devices[k] == before->0);
        } else if metadata_for(devices, n, key) is Some {
            assert(devices[n - 1] == d);
        }
    }
}

/// Metadata completes a finding: it tells the type where that is unknown and the product and the
/// system where they are, and nothing where both tell different types. All else stays.
pub proof fn law_metadata_completes(d: DiscoveredDevice, m: DiscoveredDevice)
    ensures
        ({
            let r = enriched(d, Some(m));
            &&& d.device_type != DeviceType::Unknown ==> r.device_type == d.device_type
            &&& d.device_type == DeviceType::Unknown ==> r.device_type == m.device_type
            &&& d.product_type is Some ==> r.product_type == d.product_type
            &&& d.os_version is Some ==> r.os_version == d.os_version
            &&& d.device_type == m.device_type && d.product_type is None ==> r.product_type
                == m.product_type
            &&& d.device_type == m.device_type && d.os_version is None ==> r.os_version
                == m.os_version
            &&& d.device_type != DeviceType::Unknown && m.device_type != DeviceType::Unknown
                && d.device_type != m.device_type ==> r == d
            &&& r.name == d.name && r.hostname == d.hostname && r.ip_address == d.ip_address && r.port
                == d.port && r.service_type == d.service_type && r.udid == d.udid && r.is_paired
                == d.is_paired
            &&& enriched(d, None) == d
        }),
{
}

/// A device is named by its host, with spaces for hyphens; without a host by what it calls itself, and
/// else by its service.
pub proof fn law_devices_are_named(
    hostname: Seq<char>,
    props: Seq<(Seq<char>, Seq<char>)>,
    instance: Seq<char>,
    own: Seq<char>,
)
    ensures
        short_host(hostname).len() > 0 ==> {
            let name = name_in(hostname, props, instance);
            &&& name.len() == short_host(hostname).len()
            &&& !name.contains('-')
            &&& forall|i: int|
                0 <= i < name.len() && short_host(hostname)[i] != '-' ==> #[trigger] name[i]
                    == short_host(hostname)[i]
        },
        short_host(hostname).len() == 0 && own.len() > 0 && held(props, "name"@) == Some(own)
            ==> name_in(hostname, props, instance) == own,
        short_host(hostname).len() == 0 && props.len() == 0 ==> name_in(hostname, props, instance)
            == instance,
{
    let keys = seq!["name"@, "Name"@];
    assert(keys[0] == "name"@ && keys[1] == "Name"@);
    reveal_with_fuel(first_value, 3);
    crate::text::law_char_is_replaced(short_host(hostname), '-', ' ');
}

/// The first value that is not empty is taken, in the order of the keys.
pub proof fn law_first_value_is_taken(
    props: Seq<(Seq<char>, Seq<char>)>,
    candidates: Seq<Seq<char>>,
    from: int,
)
    requires
        0 <= from <= candidates.len(),
    ensures
        first_value(props, candidates, from) matches Some(v) ==> v.len() > 0 && exists|i: int|
            from <= i < candidates.len() && held(props, #[trigger] candidates[i]) == Some(v)
                && forall|j: int|
                from <= j < i ==> (held(props, #[trigger] candidates[j]) matches Some(w) ==> w.len()
                    == 0),
        first_value(props, candidates, from) is None ==> forall|i: int|
            from <= i < candidates.len() ==> (held(props, #[trigger] candidates[i]) matches Some(w)
                ==> w.len() == 0),
    decreases candidates.len() - from,
{
    if from < candidates.len() {
        law_first_value_is_taken(props, candidates, from + 1);
        let c = candidates[from];
        if held(props, c) matches Some(v) && v.len() > 0 {
            assert(held(props, candidates[from]) == first_value(props, candidates, from));
        } else if first_value(props, candidates, from + 1) is Some {
            let v = first_value(props, candidates, from + 1)->0;
            let i = choose|i: int|
                from + 1 <= i < candidates.len() && held(props, #[trigger] candidates[i]) == Some(v)
                    && forall|j: int|
                    from + 1 <= j < i ==> (held(props, #[trigger] candidates[j]) matches Some(w)
                        ==> w.len() == 0);
            assert(held(props, candidates[i]) == Some(v));
        }
    }
}

/// A device that is not seen again is gone after as many scans as are required, and not before.
pub proof fn law_misses_are_counted(
    present: Set<u32>,
    current: Set<u32>,
    counts: Map<u32, u32>,
    required: u32,
    id: u32,
)
    requires
        present.contains(id),
        !current.contains(id),
        required > 0,
    ensures
        counts.contains_key(id) ==> (is_gone(present, current, counts, required, id) <==> counts[id]
            + 1 >= required),
        !counts.contains_key(id) ==> (is_gone(present, current, counts, required, id) <==> required
            == 1),
        !is_gone(present, current, counts, required, id) ==> misses_after(
            present,
            current,
            counts,
            required,
            id,
        ) == Some(
            1 + if counts.contains_key(id) {
                counts[id] as int
            } else {
                0
            },
        ),
{
}

/// A text ends in another, whatever the case of their letters.
pub proof fn law_endings_in_any_case(front: Seq<char>, s: Seq<char>, suffix: Seq<char>)
    ensures
        lower(s) == lower(suffix) ==> ends_ignoring_case(front + s, suffix),
        s.len() == suffix.len() && lower(s) != lower(suffix) ==> !ends_ignoring_case(
            front + s,
            suffix,
        ),
        s.len() < suffix.len() ==> !ends_ignoring_case(s, suffix),
{
    assert((front + s).skip((front + s).len() - s.len()) =~= s);
    assert(lower(s).len() == s.len() && lower(suffix).len() == suffix.len());
}

/// The services that are scanned are five, no two of them the same, and each is reached over TCP on the
/// local network.
pub proof fn law_scanned_services_differ(i: int, j: int)
    requires
        0 <= i < j < scanned_services().len(),
    ensures
        scanned_services().len() == 5,
        scanned_services()[i] != scanned_services()[j],
        scanned_services()[i].skip(scanned_services()[i].len() - 12) == "._tcp.local."@,
        scanned_services()[j].skip(scanned_services()[j].len() - 12) == "._tcp.local."@,
{
    reveal_strlit("_apple-mobdev2._tcp.local.");
    reveal_strlit("_apple-pairable._tcp.local.");
    reveal_strlit("_remotepairing._tcp.local.");
    reveal_strlit("_remotepairing-manual-pairing._tcp.local.");
    reveal_strlit("_companion-link._tcp.local.");
    reveal_strlit("._tcp.local.");
    assert(APPLE_MOBDEV2_SERVICE@.skip(14) =~= "._tcp.local."@);
    assert(APPLE_PAIRABLE_SERVICE@.skip(15) =~= "._tcp.local."@);
    assert(REMOTEPAIRING_SERVICE@.skip(14) =~= "._tcp.local."@);
    assert(REMOTEPAIRING_MANUAL_PAIRING_SERVICE@.skip(29) =~= "._tcp.local."@);
    assert(COMPANION_LINK_SERVICE@.skip(15) =~= "._tcp.local."@);
    assert(APPLE_MOBDEV2_SERVICE@[1] == 'a' && REMOTEPAIRING_SERVICE@[1] == 'r');
    assert(APPLE_PAIRABLE_SERVICE@[1] == 'a' && COMPANION_LINK_SERVICE@[1] == 'c');
}

} // verus!
