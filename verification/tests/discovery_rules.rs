use plume::browse::{BrowseAnswer, BrowseStage, ResolveAnswer, ResolveWait};
use plume::device::IpAddress;
use plume::discovery::{
    all_scanned_service_types, build_device, dedup_key, device_correlation_key,
    disconnected_after_missed_scans, ends_with_ignore_case, enrich_and_filter, first_non_empty,
    group_network_devices, is_metadata_service, metadata_service_types, parse_instance_name,
    preferred_ip_address, service_types, short_hostname, ConnectionType, DeviceType,
    DiscoveredDevice, APPLE_MOBDEV2_SERVICE, APPLE_PAIRABLE_SERVICE, COMPANION_LINK_SERVICE,
    REMOTEPAIRING_MANUAL_PAIRING_SERVICE, REMOTEPAIRING_SERVICE,
};
use plume::dnssd::{
    apply_browse_event, browse_is_quiet, browse_started, copy_instance, drain_browse_events,
    next_wait, order_resolve_candidates, pending_resolves, query_name, request_accepted,
    resolve_priority, resolve_stage, scan, split_txt, walk_browse_records, BrowseEvent,
    BrowseRecord, HostAddresses, Instances, RecordData, WindowsDnsSdDiscovery,
};
use plume::error::PlumeError;
use plume::mdns::{
    poll_time, scan_is_over, MdnsDiscovery, MdnsScan, PlatformDiscovery, ResolvedService,
};
use plume::table::Table;
use plume::wide::{to_wide, wide_to_string};
use std::collections::{HashMap, HashSet};

#[test]
fn test_device_type_from_class() {
    assert_eq!(
        DeviceType::from_device_class("AppleTV"),
        DeviceType::AppleTV
    );
    assert_eq!(DeviceType::from_device_class("iPhone"), DeviceType::IPhone);
}

#[test]
fn test_device_type_from_product() {
    assert_eq!(
        DeviceType::from_product_type("AppleTV11,1"),
        DeviceType::AppleTV
    );
    assert_eq!(
        DeviceType::from_product_type("iPhone15,2"),
        DeviceType::IPhone
    );
}

#[test]
fn query_name_strips_trailing_dot() {
    assert_eq!(
        query_name(REMOTEPAIRING_SERVICE),
        "_remotepairing._tcp.local"
    );
    assert_eq!(
        query_name(REMOTEPAIRING_MANUAL_PAIRING_SERVICE),
        "_remotepairing-manual-pairing._tcp.local"
    );
    assert_eq!(query_name("_x._tcp.local"), "_x._tcp.local");
}

#[test]
fn to_wide_is_nul_terminated() {
    let w = to_wide("ab");
    assert_eq!(w, vec![b'a' as u16, b'b' as u16, 0]);
}

#[test]
fn txt_split_handles_valueless_keys() {
    assert_eq!(
        split_txt("model=AppleTV14,1"),
        ("model".into(), "AppleTV14,1".into())
    );
    assert_eq!(split_txt("flag"), ("flag".into(), String::new()));
    assert_eq!(split_txt("k="), ("k".into(), String::new()));
}

#[test]
fn resolve_candidates_put_rppairing_services_first() {
    let service_types: Vec<String> = all_scanned_service_types()
        .iter()
        .map(|s| s.to_string())
        .collect();
    let candidates = vec![
        (0usize, "b-mobdev2".to_string()),
        (4usize, "e-companion".to_string()),
        (3usize, "d-manual".to_string()),
        (1usize, "a-pairable".to_string()),
        (2usize, "c-remotepairing".to_string()),
    ];

    let ordered = order_resolve_candidates(candidates.clone(), &service_types);
    assert_eq!(
        ordered.iter().map(|c| c.0).collect::<Vec<_>>(),
        vec![2, 3, 4, 0, 1],
        "RPPairing services resolve first, companion-link next, legacy lockdown services last"
    );

    let mut shuffled = candidates;
    shuffled.reverse();
    assert_eq!(
        order_resolve_candidates(shuffled, &service_types),
        ordered,
        "ordering must be independent of the order candidates were collected in"
    );
}

#[test]
fn resolve_priority_ranks_pairing_above_companion_link_above_legacy() {
    assert_eq!(resolve_priority(REMOTEPAIRING_MANUAL_PAIRING_SERVICE), 0);
    assert_eq!(resolve_priority(REMOTEPAIRING_SERVICE), 0);
    assert_eq!(resolve_priority(COMPANION_LINK_SERVICE), 1);
    assert_eq!(resolve_priority(APPLE_MOBDEV2_SERVICE), 2);
}

#[test]
fn browse_events_accumulate_into_instance_state() {
    let mut instances: Instances = Table::new();
    let mut addrs: HostAddresses = Table::new();
    let full = "Living Room._remotepairing._tcp.local".to_string();

    assert!(apply_browse_event(
        BrowseEvent::Instance {
            service_idx: 2,
            full_name: full.clone(),
        },
        &mut instances,
        &mut addrs,
    ));
    assert!(!apply_browse_event(
        BrowseEvent::Instance {
            service_idx: 2,
            full_name: full.clone(),
        },
        &mut instances,
        &mut addrs,
    ));
    assert!(apply_browse_event(
        BrowseEvent::Srv {
            service_idx: 2,
            full_name: full.clone(),
            target: "Living-Room.local".to_string(),
            port: 49152,
        },
        &mut instances,
        &mut addrs,
    ));
    assert!(apply_browse_event(
        BrowseEvent::Txt {
            service_idx: 2,
            full_name: full.clone(),
            strings: vec!["model=AppleTV14,1".to_string()],
        },
        &mut instances,
        &mut addrs,
    ));
    assert!(apply_browse_event(
        BrowseEvent::Address {
            host: "Living-Room.local".to_string(),
            addr: IpAddress::v4("10.0.0.5"),
        },
        &mut instances,
        &mut addrs,
    ));

    assert_eq!(instances.entries.len(), 1);
    let state = &instances.entries[0].1;
    assert_eq!(state.port, Some(49152));
    assert_eq!(state.hostname.as_deref(), Some("Living-Room.local"));
    assert_eq!(
        state.props.get("model").map(String::as_str),
        Some("AppleTV14,1")
    );
    assert_eq!(addrs.get("living-room.local").unwrap().items.len(), 1);
}

#[test]
fn an_event_is_news_where_it_changes_what_is_known() {
    let mut instances: Instances = Table::new();
    let mut addrs: HostAddresses = Table::new();
    let mut tell = |event: BrowseEvent| apply_browse_event(event, &mut instances, &mut addrs);
    let srv = |target: &str, port: u16| BrowseEvent::Srv {
        service_idx: 2,
        full_name: "a".to_string(),
        target: target.to_string(),
        port,
    };
    assert!(tell(srv("", 1)));
    assert!(tell(srv("h.local", 1)));
    assert!(!tell(srv("h.local", 1)));
    assert!(!tell(srv("", 1)));
    assert!(tell(srv("i.local", 1)));
    assert!(tell(srv("i.local", 2)));
    let txt = |strings: &[&str]| BrowseEvent::Txt {
        service_idx: 2,
        full_name: "a".to_string(),
        strings: strings.iter().map(|s| s.to_string()).collect(),
    };
    assert!(!tell(txt(&[])));
    assert!(tell(txt(&["k=1"])));
    assert!(!tell(txt(&["k=1"])));
    assert!(tell(txt(&["k=2"])));
    assert!(tell(txt(&["k=3", "k=4", "l=5"])));
    assert!(!tell(txt(&["k=3", "k=4", "l=5"])));
    assert!(tell(BrowseEvent::Txt {
        service_idx: 3,
        full_name: "a".to_string(),
        strings: Vec::new(),
    }));
    let address = || BrowseEvent::Address {
        host: "h.local".to_string(),
        addr: IpAddress::v4("10.0.0.5"),
    };
    assert!(tell(address()));
    assert!(!tell(address()));
}

#[test]
fn resolved_addresses_take_precedence() {
    let mut instances: Instances = Table::new();
    let mut hosts: HostAddresses = Table::new();
    let full = "Living Room._remotepairing._tcp.local".to_string();
    drain_browse_events(
        vec![
            BrowseEvent::Instance { service_idx: 2, full_name: full },
            BrowseEvent::Address {
                host: "Living-Room.local".to_string(),
                addr: IpAddress::v4("10.0.0.5"),
            },
        ],
        &mut instances,
        &mut hosts,
    );
    let types = WindowsDnsSdDiscovery::new().service_types;
    let pending = pending_resolves(&instances, &types);
    let outcome = |addresses: Vec<IpAddress>| {
        copy_instance(
            "Living-Room.local".to_string(),
            49152,
            vec![("model".to_string(), "AppleTV14,1".to_string())],
            addresses,
        )
    };
    let resolved = outcome(vec![IpAddress::v4("10.0.0.9")]);
    let instances = resolve_stage(instances, &pending, vec![(0, resolved)]);
    let devices = scan(&types, &instances, &hosts);
    assert_eq!(devices[0].ip_address.as_ref().unwrap().text, "10.0.0.9");
    let instances = resolve_stage(instances, &pending, vec![(0, outcome(Vec::new()))]);
    let devices = scan(&types, &instances, &hosts);
    assert_eq!(devices[0].ip_address.as_ref().unwrap().text, "10.0.0.5");
}

#[test]
fn instances_from_different_service_types_stay_separate() {
    let mut instances: Instances = Table::new();
    let mut addrs: HostAddresses = Table::new();
    for idx in [2usize, 3usize] {
        apply_browse_event(
            BrowseEvent::Instance {
                service_idx: idx,
                full_name: "Living Room._x._tcp.local".to_string(),
            },
            &mut instances,
            &mut addrs,
        );
    }
    assert_eq!(instances.entries.len(), 2);
}

#[test]
fn wide_round_trip() {
    let w = to_wide("Frankie\u{2019}s MacBook Pro");
    let s = wide_to_string(Some(&w));
    assert_eq!(s, "Frankie\u{2019}s MacBook Pro");
    assert_eq!(wide_to_string(None), "");
}

#[test]
fn wide_text_handles_pairs_and_lone_surrogates() {
    let w = to_wide("a\u{1F600}b");
    assert_eq!(w, vec![0x61, 0xD83D, 0xDE00, 0x62, 0]);
    assert_eq!(wide_to_string(Some(&w)), "a\u{1F600}b");
    assert_eq!(wide_to_string(Some(&[0x61, 0xD83D, 0])), "a\u{FFFD}");
}

fn props(pairs: &[(&str, &str)]) -> Table<String, String> {
    let mut t: Table<String, String> = Table::new();
    for (k, v) in pairs {
        t.insert(k.to_string(), v.to_string());
    }
    t
}

#[test]
fn services_have_their_places() {
    assert_eq!(
        service_types(),
        vec![
            APPLE_MOBDEV2_SERVICE,
            APPLE_PAIRABLE_SERVICE,
            REMOTEPAIRING_SERVICE,
            REMOTEPAIRING_MANUAL_PAIRING_SERVICE
        ]
    );
    assert_eq!(metadata_service_types(), vec![COMPANION_LINK_SERVICE]);
    assert_eq!(all_scanned_service_types().len(), 5);
    assert!(is_metadata_service(COMPANION_LINK_SERVICE));
    assert!(!is_metadata_service(REMOTEPAIRING_SERVICE));
}

#[test]
fn kinds_of_devices_are_recognised_and_shown() {
    assert_eq!(DeviceType::from_device_class("iPad"), DeviceType::IPad);
    assert_eq!(DeviceType::from_device_class("Watch"), DeviceType::Unknown);
    assert_eq!(DeviceType::from_product_type("Mac14,2"), DeviceType::AppleMac);
    assert_eq!(DeviceType::from_product_type("Toaster1,1"), DeviceType::Unknown);
    assert_eq!(DeviceType::AppleTV.to_text(), "Apple TV");
    assert_eq!(ConnectionType::USB.to_text(), "USB");
    assert_eq!(ConnectionType::WiFi.to_text(), "WiFi");
}

#[test]
fn names_of_instances_and_hosts_are_cut() {
    assert!(ends_with_ignore_case("Living-Room.LOCAL", ".local"));
    assert!(!ends_with_ignore_case("x", ".local"));
    assert_eq!(
        parse_instance_name("Living Room._remotepairing._tcp.local.", REMOTEPAIRING_SERVICE),
        "Living Room"
    );
    assert_eq!(short_hostname("Living-Room.local."), "Living-Room");
    assert_eq!(
        dedup_key("Living-Room.local.", "x", REMOTEPAIRING_SERVICE),
        dedup_key("living-room.local", "y", REMOTEPAIRING_SERVICE)
    );
    assert_ne!(
        dedup_key("a.local.", "x", REMOTEPAIRING_SERVICE),
        dedup_key("a.local.", "x", APPLE_MOBDEV2_SERVICE)
    );
}

#[test]
fn the_first_value_and_the_best_address_win() {
    let p = props(&[("a", ""), ("b", "2"), ("c", "3")]);
    assert_eq!(first_non_empty(&p, &vec!["a", "b", "c"]), Some("2".to_string()));
    assert_eq!(first_non_empty(&p, &vec!["a", "z"]), None);
    let addresses = vec![
        IpAddress::v6("fe80::1"),
        IpAddress::v4("10.0.0.7"),
        IpAddress::v4("10.0.0.8"),
    ];
    assert_eq!(preferred_ip_address(&addresses).unwrap().text, "10.0.0.7");
    assert_eq!(preferred_ip_address(&vec![IpAddress::v6("fe80::1")]).unwrap().text, "fe80::1");
    assert!(preferred_ip_address(&Vec::new()).is_none());
}

fn found(host: &str, name: &str, service: &str, port: u16, p: &[(&str, &str)]) -> DiscoveredDevice {
    build_device(
        name,
        host,
        service,
        Some(port),
        &vec![IpAddress::v4("10.0.0.5")],
        &props(p),
    )
}

#[test]
fn metadata_completes_the_devices_of_its_host() {
    let devices = vec![
        found("Living-Room.local.", "uuid", REMOTEPAIRING_SERVICE, 49152, &[]),
        found(
            "Living-Room.local.",
            "Living Room",
            COMPANION_LINK_SERVICE,
            50000,
            &[("rpMd", "AppleTV14,1")],
        ),
    ];
    let out = enrich_and_filter(devices);
    assert_eq!(out.len(), 1);
    assert_eq!(out[0].service_type, REMOTEPAIRING_SERVICE);
    assert_eq!(out[0].device_type, DeviceType::AppleTV);
    assert_eq!(out[0].product_type.as_deref(), Some("AppleTV14,1"));
}

#[test]
fn services_of_one_host_are_one_device() {
    let devices = vec![
        found(
            "Living-Room.local.",
            "Living Room",
            REMOTEPAIRING_SERVICE,
            49152,
            &[("model", "AppleTV14,1")],
        ),
        found(
            "living-room.local.",
            "Living Room",
            REMOTEPAIRING_MANUAL_PAIRING_SERVICE,
            49153,
            &[("model", "AppleTV14,1")],
        ),
        found("Desk.local.", "Desk", APPLE_MOBDEV2_SERVICE, 1, &[("model", "iPhone15,2")]),
    ];
    let out = group_network_devices(&devices, "/cache");
    assert_eq!(out.len(), 1);
    assert_eq!(out[0].reconnect_address.as_ref().unwrap().port, 49152);
    assert_eq!(out[0].pairing_address.as_ref().unwrap().port, 49153);
    assert_eq!(out[0].udid, "");
    assert_eq!(out[0].pairing_cache_dir.as_deref(), Some("/cache"));
    assert_eq!(
        device_correlation_key(&devices[0]),
        device_correlation_key(&devices[1])
    );
}

#[test]
fn a_device_is_gone_after_repeated_misses() {
    let mut present: HashSet<u32> = HashSet::from([1, 2]);
    let mut misses: HashMap<u32, u32> = HashMap::new();
    let current: HashSet<u32> = HashSet::from([2]);
    assert!(disconnected_after_missed_scans(&mut present, &current, &mut misses, 2).is_empty());
    assert!(present.contains(&1));
    assert_eq!(
        disconnected_after_missed_scans(&mut present, &current, &mut misses, 2),
        vec![1]
    );
    assert!(!present.contains(&1));
    assert!(present.contains(&2));
}

#[test]
fn records_become_events() {
    let records = vec![
        BrowseRecord {
            owner: "_remotepairing._tcp.local".to_string(),
            data: RecordData::Pointer("TV._remotepairing._tcp.local".to_string()),
        },
        BrowseRecord { owner: "x".to_string(), data: RecordData::Other },
        BrowseRecord {
            owner: "TV.local".to_string(),
            data: RecordData::Address(IpAddress::v4("10.0.0.9")),
        },
    ];
    let events = walk_browse_records(records, 2);
    assert_eq!(events.len(), 2);
    assert!(matches!(
        &events[0],
        BrowseEvent::Instance { service_idx: 2, full_name } if full_name == "TV._remotepairing._tcp.local"
    ));
    assert!(matches!(&events[1], BrowseEvent::Address { host, .. } if host == "TV.local"));
}

#[test]
fn browsing_waits_and_ends() {
    assert!(request_accepted(0));
    assert!(request_accepted(9506));
    assert!(!request_accepted(1));
    assert!(browse_started(1).is_ok());
    assert!(matches!(browse_started(0), Err(PlumeError::Other(_))));
    assert_eq!(next_wait(5, 5), None);
    assert_eq!(next_wait(0, 100), Some(100));
    assert_eq!(next_wait(0, 10_000_000_000), Some(200_000_000));
    assert!(!browse_is_quiet(false, 10_000_000_000));
    assert!(browse_is_quiet(true, 1_200_000_000));
}

#[test]
fn a_scan_resolves_what_browsing_left_open() {
    let mut instances: Instances = Table::new();
    let mut hosts: HostAddresses = Table::new();
    let full = "Living Room._remotepairing._tcp.local".to_string();
    drain_browse_events(
        vec![BrowseEvent::Instance { service_idx: 2, full_name: full.clone() }],
        &mut instances,
        &mut hosts,
    );
    let types = WindowsDnsSdDiscovery::new().service_types;
    let pending = pending_resolves(&instances, &types);
    assert_eq!(pending.len(), 1);
    let outcome = copy_instance(
        "Living-Room.local".to_string(),
        49152,
        vec![("model".to_string(), "AppleTV14,1".to_string())],
        vec![IpAddress::v4("10.0.0.5")],
    );
    let instances = resolve_stage(instances, &pending, vec![(0, outcome)]);
    assert!(pending_resolves(&instances, &types).is_empty());
    let devices = scan(&types, &instances, &hosts);
    assert_eq!(devices.len(), 1);
    assert_eq!(devices[0].device_type, DeviceType::AppleTV);
    assert_eq!(devices[0].port, Some(49152));
    assert_eq!(devices[0].ip_address.as_ref().unwrap().text, "10.0.0.5");
}

#[test]
fn resolved_services_are_kept_once() {
    let mut s = MdnsScan::new();
    for port in [49152, 49160] {
        s.resolved(
            &ResolvedService {
                full_name: "Living Room._remotepairing._tcp.local.".to_string(),
                hostname: "Living-Room.local.".to_string(),
                port,
                addresses: vec![IpAddress::v4("10.0.0.5")],
                props: props(&[("model", "AppleTV14,1")]),
            },
            REMOTEPAIRING_SERVICE,
        );
    }
    let devices = s.finish();
    assert_eq!(devices.len(), 1);
    assert_eq!(devices[0].name, "Living Room");
    assert_eq!(MdnsDiscovery::new().service_types.len(), 5);
    assert_eq!(PlatformDiscovery::new().browser().service_types.len(), 5);
}

#[test]
fn polling_ends_with_the_time() {
    assert!(poll_time(1) <= 1);
    assert!(!scan_is_over(true, 1, 10));
}

#[test]
fn browsing_goes_on_until_nothing_new_comes() {
    assert!(matches!(
        BrowseStage::new(0, 0, 10),
        Err(PlumeError::Other(m)) if m == "DnsServiceBrowse failed for every service type"
    ));
    let mut s = BrowseStage::new(1, 0, 9_000_000_000).unwrap();
    assert_eq!(s.wait(0), Some(200_000_000));
    assert_eq!(s.wait(9_000_000_000), None);
    assert!(s.answered(BrowseAnswer::Timeout, 8_000_000_000));
    let event = || BrowseEvent::Instance {
        service_idx: 2,
        full_name: "TV._remotepairing._tcp.local".to_string(),
    };
    assert!(s.answered(BrowseAnswer::Event(event()), 8_100_000_000));
    assert!(s.answered(BrowseAnswer::Event(event()), 8_200_000_000));
    assert!(!s.answered(BrowseAnswer::Timeout, 9_300_000_000));
    assert!(!s.answered(BrowseAnswer::Disconnected, 8_200_000_000));
    let (instances, hosts) = s.finish(vec![BrowseEvent::Address {
        host: "TV.local".to_string(),
        addr: IpAddress::v4("10.0.0.9"),
    }]);
    assert_eq!((instances.entries.len(), hosts.entries.len()), (1, 1));
}

#[test]
fn resolving_waits_for_all_requests() {
    let mut instances: Instances = Table::new();
    let mut hosts: HostAddresses = Table::new();
    let full = "TV._remotepairing._tcp.local".to_string();
    apply_browse_event(
        BrowseEvent::Instance { service_idx: 2, full_name: full },
        &mut instances,
        &mut hosts,
    );
    let types = WindowsDnsSdDiscovery::new().service_types;
    let pending = pending_resolves(&instances, &types);
    let outcome = |port: u16| {
        copy_instance("TV.local".to_string(), port, Vec::new(), vec![IpAddress::v4("10.0.0.9")])
    };
    let mut w = ResolveWait::new(2, 100);
    assert_eq!(w.wait(0), Some(100));
    assert!(w.answered(ResolveAnswer::Timeout));
    assert!(w.answered(ResolveAnswer::Ended(0, Some(outcome(7)))));
    assert!(!w.answered(ResolveAnswer::Disconnected));
    assert!(w.answered(ResolveAnswer::Ended(5, None)));
    assert_eq!(w.wait(0), None);
    let resolved = w.finish(vec![(0, Some(outcome(8)))], instances, &pending);
    assert_eq!(resolved.entries[0].1.port, Some(8));
}
