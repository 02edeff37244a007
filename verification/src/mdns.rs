//! Scans with a resolver of one's own.
use crate::device::IpAddress;
use crate::discovery::{
    build_device, enrich_and_filter, enriched_list, instance_part, parse_instance_name,
    scanned_services, short_host, short_hostname, DiscoveredDevice,
};
use crate::dnssd::{devices_in, owned_service_types, POLL_INTERVAL};
use crate::table::{stored, Table};
use crate::text::{ascii_lowercase, lower, texts};
use vstd::prelude::*;

verus! {

/// A scan that browses for each service itself.
pub struct MdnsDiscovery {
    pub service_types: Vec<String>,
}

impl MdnsDiscovery {
    pub fn new() -> (r: MdnsDiscovery)
        ensures
            texts(r.service_types@) == scanned_services(),
    {
        MdnsDiscovery { service_types: owned_service_types() }
    }
}

impl Default for MdnsDiscovery {
    fn default() -> (r: MdnsDiscovery)
        ensures
            texts(r.service_types@) == scanned_services(),
    {
        MdnsDiscovery::new()
    }
}

/// The scan of this platform.
#[derive(Debug, Clone, Copy)]
pub struct PlatformDiscovery;

impl PlatformDiscovery {
    pub fn new() -> (r: PlatformDiscovery)
        ensures
            r == PlatformDiscovery,
    {
        PlatformDiscovery
    }

    /// What the scan runs: every platform browses for each service itself.
    pub fn browser(&self) -> (r: MdnsDiscovery)
        ensures
            texts(r.service_types@) == scanned_services(),
    {
        MdnsDiscovery::new()
    }
}

/// The findings of a scan under host and service: one device can offer several services on
/// different ports, which do not stand for each other.
pub struct MdnsScan {
    pub found: Table<(String, String), DiscoveredDevice>,
}

/// A service that a resolver has resolved.
pub struct ResolvedService {
    pub full_name: String,
    pub hostname: String,
    pub port: u16,
    pub addresses: Vec<IpAddress>,
    pub props: Table<String, String>,
}

/// `device` stands for a resolved service.
pub open spec fn service_device(
    service: ResolvedService,
    service_type: Seq<char>,
    device: DiscoveredDevice,
) -> bool {
    let host = service.hostname@;
    let props = service.props@;
    &&& device.name@ == crate::discovery::name_in(
        host,
        props,
        instance_part(service.full_name@, service_type),
    )
    &&& device.hostname@ == short_host(host)
    &&& device.udid is None
    &&& crate::discovery::best_text(service.addresses@, device.ip_address)
    &&& device.port == Some(service.port)
    &&& device.device_type == crate::discovery::type_in(props)
    &&& device.connection_type == crate::discovery::ConnectionType::WiFi
    &&& device.is_paired == crate::text::has_text(service_type, "mobdev2"@)
    &&& crate::text::opt_text(device.product_type) == crate::discovery::first_value(
        props,
        crate::discovery::model_keys(),
        0,
    )
    &&& crate::text::opt_text(device.os_version) == crate::discovery::first_value(
        props,
        seq!["OSVersion"@, "osVersion"@],
        0,
    )
    &&& device.service_type@ == service_type
}

impl MdnsScan {
    pub fn new() -> (r: MdnsScan)
        ensures
            r.found@.len() == 0,
    {
        MdnsScan { found: Table::new() }
    }

    /// Takes over a service that was resolved; a later answer replaces an earlier one.
    pub fn resolved(&mut self, service: &ResolvedService, service_type: &str)
        ensures
            exists|device: DiscoveredDevice| #[trigger]
                service_device(*service, service_type@, device) && final(self).found@ == stored(
                    old(self).found@,
                    (lower(short_host(service.hostname@)), service_type@),
                    device,
                ),
    {
        let instance: String = parse_instance_name(service.full_name.as_str(), service_type);
        let device: DiscoveredDevice = build_device(
            instance.as_str(),
            service.hostname.as_str(),
            service_type,
            Some(service.port),
            &service.addresses,
            &service.props,
        );
        let host: String = short_hostname(service.hostname.as_str());
        proof {
            assert(service_device(*service, service_type@, device));
        }
        self.found.insert((ascii_lowercase(host.as_str()), service_type.to_string()), device);
    }

    /// The devices that the scan found.
    pub fn finish(self) -> (r: Vec<DiscoveredDevice>)
        ensures
            r@ == enriched_list(devices_in(self.found@), self.found@.len() as int),
    {
        let ghost model = self.found@;
        let found: Table<(String, String), DiscoveredDevice> = self.found;
        let mut devices: Vec<DiscoveredDevice> = Vec::new();
        let mut i: usize = 0;
        while i < found.entries.len()
            invariant
                i <= found.entries@.len(),
                model == found@,
                devices@ == devices_in(model).take(i as int),
            decreases found.entries@.len() - i,
        {
            devices.push(found.entries[i].1.clone());
            proof {
                assert(devices_in(model)[i as int] == found.entries@[i as int].1);
            }
            i += 1;
            proof {
                assert(devices@ =~= devices_in(model).take(i as int));
            }
        }
        proof {
            assert(devices_in(model).take(model.len() as int) =~= devices_in(model));
        }
        enrich_and_filter(devices)
    }
}

/// How long to wait on each receiver, in nanoseconds.
pub fn poll_time(remaining: u128) -> (r: u128)
    ensures
        r == if remaining < POLL_INTERVAL {
            remaining
        } else {
            POLL_INTERVAL
        },
{
    if remaining < POLL_INTERVAL {
        remaining
    } else {
        POLL_INTERVAL
    }
}

/// Whether the last poll before the deadline brought nothing.
pub fn scan_is_over(got_event: bool, poll: u128, remaining: u128) -> (r: bool)
    ensures
        r == (!got_event && poll == remaining),
{
    !got_event && poll == remaining
}

/// A device that was found is reached at the port of its service; it counts as paired where the service
/// is the one of paired devices, and not where it is the one for reconnecting.
pub proof fn law_found_device_is_the_service(
    service: ResolvedService,
    service_type: Seq<char>,
    device: DiscoveredDevice,
)
    requires
        service_device(service, service_type, device),
    ensures
        device.port == Some(service.port),
        device.service_type@ == service_type,
        device.udid is None,
        device.is_paired ==> service_type != "_remotepairing._tcp.local."@,
        device.connection_type == crate::discovery::ConnectionType::WiFi,
        service_type == "_apple-mobdev2._tcp.local."@ ==> device.is_paired,
{
    reveal_strlit("_remotepairing._tcp.local.");
    reveal_strlit("_apple-mobdev2._tcp.local.");
    reveal_strlit("mobdev2");
    let a = "_apple-mobdev2._tcp.local."@;
    assert(a.subrange(7, 14) =~= "mobdev2"@);
    assert(crate::text::occurs_at(a, "mobdev2"@, 7));
    let b = "_remotepairing._tcp.local."@;
    if crate::text::has_text(b, "mobdev2"@) {
        let i = choose|i: int| crate::text::occurs_at(b, "mobdev2"@, i);
        assert(b.subrange(i, i + 7)[6] == '2');
        assert(b[i + 6] == '2');
    }
}

/// What a device is and runs is told by its own texts, under the first of the keys that has a value.
pub proof fn law_service_tells_what_it_is(
    service: ResolvedService,
    service_type: Seq<char>,
    device: DiscoveredDevice,
    value: Seq<char>,
)
    requires
        service_device(service, service_type, device),
        value.len() > 0,
    ensures
        crate::table::held(service.props@, "OSVersion"@) == Some(value) ==> crate::text::opt_text(
            device.os_version,
        ) == Some(value),
        crate::table::held(service.props@, "OSVersion"@) is None && crate::table::held(
            service.props@,
            "osVersion"@,
        ) == Some(value) ==> crate::text::opt_text(device.os_version) == Some(value),
        crate::table::held(service.props@, "ProductType"@) == Some(value) ==> crate::text::opt_text(
            device.product_type,
        ) == Some(value),
        service.props@.len() == 0 ==> device.os_version is None && device.product_type is None,
{
    let os = seq!["OSVersion"@, "osVersion"@];
    let model = crate::discovery::model_keys();
    assert(os[0] == "OSVersion"@ && os[1] == "osVersion"@);
    assert(model[0] == "ProductType"@);
    reveal_with_fuel(crate::discovery::first_value, 4);
}

} // verus!
