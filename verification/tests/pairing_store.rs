use idevice::remote_pairing::RpPairingFile;
use plume::commands::{
    addressed_target, app_lines, chosen_app, forget_target, invocation, listed_devices,
    named_target, paired_line, pairing_target, reconnect_lines, scan_lines, select_device,
    typed_pin, CommandError, ShownDevice,
};
use plume::device::{Device, IpAddress};
use plume::error::PlumeError;
use plume::options::{SignerApp, SignerAppReal};
use plume::plist_value::Instant;
use plume::store::{file_stem, pairing_file_udid, pairings_are_fit, Files, PairingStore};
use plume::table::Table;
use plume::wireless::{
    best_address, trim_local, txt, verify, DiscoveredDevice, PairedDevice, PairingScan,
    ResolvedPairing, ServiceAddress, ServiceKind,
};

const ALT_IRK: [u8; 16] = [
    0x32, 0x0a, 0x7a, 0x64, 0x63, 0xf3, 0x5c, 0xcd, 0xa4, 0xbb, 0xd6, 0xeb, 0xe3, 0xab, 0xec, 0x8b,
];
const IDENTIFIER: &str = "2BE6E510-0325-4365-923E-B14C6F57DB3A";
const AUTH_TAG: &str = "kXjlTr2l";
const NOW: Instant = Instant { seconds: 1_700_000_000, nanos: 0 };

fn temp_store() -> PairingStore {
    PairingStore::new("/tmp/plume-pairing-test".to_string())
}

fn sample_device() -> PairedDevice {
    PairedDevice {
        udid: "00008110-001A2B3C00000000".to_string(),
        name: "Living Room".to_string(),
        model: "AppleTV11,1".to_string(),
        account_id: "plume".to_string(),
    }
}

fn sample_file() -> RpPairingFile {
    let mut pairing_file = RpPairingFile::generate("plume");
    pairing_file.alt_irk = Some(ALT_IRK.to_vec());
    pairing_file
}

#[test]
fn find_matches_a_saved_pairing_by_auth_tag() {
    let store = temp_store();
    let device = sample_device();
    let mut files: Files = Table::new();

    let pairing_file = sample_file();

    store
        .save(&device, pairing_file.to_bytes(), NOW, &mut files)
        .unwrap();

    let found = store.find(IDENTIFIER, AUTH_TAG, &files);
    let found = found.expect("saved pairing should match its own auth tag");
    assert_eq!(found.udid, device.udid);
    assert_eq!(found.name, "Living Room");
    assert_eq!(found.model, "AppleTV11,1");

    assert!(store.find(IDENTIFIER, "AAAAAAAA", &files).is_none());
    assert!(store.find("not-our-identifier", AUTH_TAG, &files).is_none());

    assert!(store.remove(&device.udid, &mut files).unwrap());
    assert!(store.find(IDENTIFIER, AUTH_TAG, &files).is_none());
}

#[test]
fn list_is_empty_when_nothing_has_been_paired() {
    let store = temp_store();
    let files: Files = Table::new();
    assert!(store.list(&files).is_empty());
}

#[test]
fn file_stem_rejects_path_traversal() {
    assert!(file_stem("../../etc/passwd").is_err());
    assert!(file_stem("a/b").is_err());
    assert!(file_stem("a.b").is_err());
    assert!(file_stem("").is_err());
}

#[test]
fn file_stem_accepts_a_real_udid() {
    assert!(file_stem("00008110-001A2B3C00000000").is_ok());
}

#[test]
fn pairing_file_udid_ignores_sidecars() {
    assert_eq!(
        pairing_file_udid("/x/00008110-001A.plist"),
        Some("00008110-001A".to_string())
    );
    assert_eq!(pairing_file_udid("/x/00008110-001A.info.plist"), None);
    assert_eq!(pairing_file_udid("/x/notes.txt"), None);
}

#[test]
fn trim_local_strips_mdns_suffix() {
    assert_eq!(trim_local("Living-Room.local."), "Living-Room");
    assert_eq!(trim_local("Living-Room.local"), "Living-Room");
    assert_eq!(trim_local("Living-Room"), "Living-Room");
}

#[test]
fn service_kinds_map_to_distinct_types() {
    assert_ne!(
        ServiceKind::ManualPairing.service_type(),
        ServiceKind::RemotePairing.service_type()
    );
}

#[test]
fn a_saved_pairing_is_read_back() {
    let store = temp_store();
    let device = PairedDevice { name: " Küche & <Bad> ".to_string(), ..sample_device() };
    let mut files: Files = Table::new();
    let pairing_file = sample_file();
    let path = store
        .save(&device, pairing_file.to_bytes(), NOW, &mut files)
        .unwrap();
    assert_eq!(path, "/tmp/plume-pairing-test/00008110-001A2B3C00000000.plist");
    assert_eq!(files.entries.len(), 2);

    let keys = store.load(&device.udid, &files).unwrap();
    assert_eq!(keys.public_key, pairing_file.public_key_bytes());
    assert_eq!(keys.private_key, pairing_file.private_key_bytes());
    assert_eq!(keys.identifier, pairing_file.identifier);
    assert_eq!(keys.alt_irk, Some(ALT_IRK.to_vec()));

    let record = store.record(&device.udid, &files).unwrap();
    assert_eq!(record.name, device.name);
    assert_eq!(record.account_id, "plume");
    assert_eq!(
        record.to_text(),
        " Küche & <Bad>  (AppleTV11,1) [00008110-001A2B3C00000000]"
    );
    assert_eq!(store.list(&files).len(), 1);
}

#[test]
fn unusual_names_are_read_back() {
    let store = temp_store();
    for name in ["", "   ", "a\u{a0}\u{2028}b", "\u{1F4FA} 'x' \"y\"", "&amp; ]]> <!-- -->", "\u{FFFF}"] {
        let mut files: Files = Table::new();
        let device = PairedDevice { name: name.to_string(), ..sample_device() };
        store.save(&device, sample_file().to_bytes(), NOW, &mut files).unwrap();
        assert_eq!(store.record(&device.udid, &files).unwrap().name, name);
    }
}

#[test]
fn saving_again_replaces_a_pairing() {
    let store = temp_store();
    let mut files: Files = Table::new();
    store.save(&sample_device(), sample_file().to_bytes(), NOW, &mut files).unwrap();
    let renamed = PairedDevice { name: "Bedroom".to_string(), ..sample_device() };
    store.save(&renamed, sample_file().to_bytes(), NOW, &mut files).unwrap();
    let all = store.list(&files);
    assert_eq!(all.len(), 1);
    assert_eq!(all[0].name, "Bedroom");
}

#[test]
fn a_damaged_file_hides_no_other() {
    let store = temp_store();
    let mut files: Files = Table::new();
    files.insert("0000-BAD.plist".to_string(), b"garbage".to_vec());
    store.save(&sample_device(), sample_file().to_bytes(), NOW, &mut files).unwrap();
    let names: Vec<String> = store.list(&files).into_iter().map(|r| r.udid).collect();
    assert!(names.contains(&"00008110-001A2B3C00000000".to_string()));
    assert!(store.find(IDENTIFIER, AUTH_TAG, &files).is_some());
}

#[test]
fn identifiers_that_lead_elsewhere_are_refused() {
    let store = temp_store();
    let mut files: Files = Table::new();
    assert!(matches!(
        store.load("../x", &files),
        Err(PlumeError::PairingInvalidUdid(u)) if u == "../x"
    ));
    assert!(matches!(store.load("missing", &files), Err(PlumeError::PairingNotFound(_))));
    assert!(matches!(
        store.remove("a/b", &mut files),
        Err(PlumeError::PairingInvalidUdid(_))
    ));
    assert!(!store.remove("missing", &mut files).unwrap());
    assert!(store.pairing_file_path("").is_err());
    assert_eq!(store.info_path("x").unwrap(), "/tmp/plume-pairing-test/x.info.plist");
    assert_eq!(store.directory(), "/tmp/plume-pairing-test");
}

fn service(name: &str, props: &[(&str, &str)]) -> ResolvedPairing {
    let mut t: Table<String, String> = Table::new();
    for (k, v) in props {
        t.insert(k.to_string(), v.to_string());
    }
    ResolvedPairing {
        valid: true,
        full_name: name.to_string(),
        hostname: "Living-Room.local.".to_string(),
        port: 49152,
        addresses: vec![
            ServiceAddress::V6 { address: 1, scope: 2 },
            ServiceAddress::V4(0x0a00_0005),
        ],
        props: t,
    }
}

#[test]
fn a_resolved_service_is_a_device() {
    let s = service("tv._remotepairing._tcp.local.", &[("name", "Living Room"), ("authTag", "")]);
    assert_eq!(txt(&s.props, "name"), Some("Living Room".to_string()));
    assert_eq!(txt(&s.props, "authTag"), None);
    let d = DiscoveredDevice::from_resolved(ServiceKind::RemotePairing, &s).unwrap();
    assert_eq!(d.display_name(), "Living Room");
    assert_eq!(d.hostname, "Living-Room");
    assert!(matches!(d.address, ServiceAddress::V4(0x0a00_0005)));
    assert_eq!(d.to_text("10.0.0.5:49152"), "[paired] Living Room (10.0.0.5:49152)");
    let unnamed = DiscoveredDevice::from_resolved(
        ServiceKind::ManualPairing,
        &service("x", &[]),
    )
    .unwrap();
    assert_eq!(unnamed.display_name(), "Living-Room");
    let gone = ResolvedPairing { valid: false, ..service("x", &[]) };
    assert!(DiscoveredDevice::from_resolved(ServiceKind::ManualPairing, &gone).is_none());
    assert!(best_address(&Vec::new()).is_none());
}

#[test]
fn a_withdrawn_service_leaves_the_scan() {
    let mut s = PairingScan::new();
    for (name, shown) in [("b", "Bedroom"), ("a", "Attic"), ("b", "Bath")] {
        let d = DiscoveredDevice::from_resolved(
            ServiceKind::ManualPairing,
            &service(name, &[("name", shown)]),
        )
        .unwrap();
        s.resolved(d);
    }
    s.removed("a");
    let found = s.finish();
    assert_eq!(found.len(), 1);
    assert_eq!(found[0].display_name(), "Bath");
}

#[test]
fn a_pin_request_means_a_dead_pairing() {
    assert!(verify(false, Ok(())).is_ok());
    assert!(matches!(
        verify(true, Err(PlumeError::Other("refused".to_string()))),
        Err(PlumeError::PairingNotAccepted)
    ));
    assert!(matches!(verify(true, Ok(())), Err(PlumeError::PairingNotAccepted)));
    assert!(matches!(
        verify(false, Err(PlumeError::Other("refused".to_string()))),
        Err(PlumeError::Other(m)) if m == "refused"
    ));
}

fn shown(kind: ServiceKind, identifier: Option<&str>, tag: Option<&str>) -> ShownDevice {
    ShownDevice {
        device: DiscoveredDevice {
            kind,
            service_name: "s".to_string(),
            hostname: "Living-Room".to_string(),
            name: None,
            identifier: identifier.map(str::to_string),
            auth_tag: tag.map(str::to_string),
            address: ServiceAddress::V4(0x0a00_0005),
            port: 49152,
        },
        ip: "10.0.0.5".to_string(),
        address: "10.0.0.5:49152".to_string(),
    }
}

#[test]
fn only_the_files_that_are_read_must_be_readable() {
    let store = temp_store();
    let udid = "00008110-001A2B3C00000000";
    let odd = b"<plist><dict><key>a</key><date>9999-12-31T23:59:59-01:00</date></dict></plist>";
    let mut files: Files = Table::new();
    assert!(pairings_are_fit(&files, true));
    store.save(&sample_device(), sample_file().to_bytes(), NOW, &mut files).unwrap();
    assert!(pairings_are_fit(&files, true));
    // Files that are passed over: of no pairing, of no valid identifier, beside no keys.
    for name in ["notes.txt", "a b.plist", "other.info.plist"] {
        files.insert(name.to_string(), odd.to_vec());
        assert!(pairings_are_fit(&files, true), "{name}");
    }
    assert_eq!(store.list(&files).len(), 1);
    assert!(matches!(store.load("a b", &files), Err(PlumeError::PairingInvalidUdid(_))));
    // The keys are read by a search alone.
    let keys = files.get(&format!("{udid}.plist")).unwrap().clone();
    files.insert(format!("{udid}.plist"), odd.to_vec());
    assert!(pairings_are_fit(&files, false) && !pairings_are_fit(&files, true));
    assert_eq!(store.list(&files).len(), 1);
    files.insert(format!("{udid}.plist"), keys);
    files.insert(format!("{udid}.info.plist"), odd.to_vec());
    assert!(!pairings_are_fit(&files, false));
    store.remove(udid, &mut files).unwrap();
    assert!(pairings_are_fit(&files, true));
}

#[test]
fn discovered_devices_are_described() {
    let store = temp_store();
    let mut files: Files = Table::new();
    store.save(&sample_device(), sample_file().to_bytes(), NOW, &mut files).unwrap();
    let lines = store.discover_lines(
        &vec![
            shown(ServiceKind::RemotePairing, Some(IDENTIFIER), Some(AUTH_TAG)),
            shown(ServiceKind::RemotePairing, Some(IDENTIFIER), Some("AAAAAAAA")),
            shown(ServiceKind::ManualPairing, None, None),
        ],
        &files,
        "plumesign",
    );
    assert_eq!(
        lines,
        vec![
            "[paired] Living-Room (10.0.0.5:49152) paired as 00008110-001A2B3C00000000",
            "[paired] Living-Room (10.0.0.5:49152) paired with another host",
            "[pairable] Living-Room (10.0.0.5:49152) run: plumesign pair --ip 10.0.0.5 --port 49152",
        ]
    );
    assert_eq!(
        store.list_lines(&files),
        vec!["Living Room (AppleTV11,1) [00008110-001A2B3C00000000]"]
    );
    assert_eq!(
        store.find_line(IDENTIFIER, AUTH_TAG, &files).unwrap(),
        "Living Room (AppleTV11,1) [00008110-001A2B3C00000000]"
    );
    assert_eq!(
        store.find_line("nobody", AUTH_TAG, &files).unwrap_err(),
        "No stored pairing matches identifier nobody"
    );
    assert!(store.forget("00008110-001A2B3C00000000", &mut files).is_ok());
    assert!(matches!(
        store.forget("00008110-001A2B3C00000000", &mut files),
        Err(CommandError::Message(m)) if m == "No stored pairing for 00008110-001A2B3C00000000"
    ));
    assert!(matches!(
        store.forget("a/b", &mut files),
        Err(CommandError::Library(PlumeError::PairingInvalidUdid(_)))
    ));
}

fn tv(name: &str, udid: &str) -> Device {
    let mut d = Device::new_tvos(
        name.to_string(),
        name.replace(' ', "-"),
        IpAddress::v4(&format!("10.0.0.{}", name.len() + name.as_bytes()[0] as usize)),
        Some(49153),
        None,
        "/cache".to_string(),
    );
    d.udid = udid.to_string();
    d
}

const UDID: &str = "00008110-001A2B3C00000000";

#[test]
fn devices_are_selected() {
    assert_eq!(
        listed_devices(Vec::new(), Vec::new()).unwrap_err(),
        "No devices connected. Connect a device or pair an Apple TV with `plumesign pair connect`."
    );
    let all = listed_devices(vec![tv("A", UDID)], vec![tv("B", "")]).unwrap();
    assert_eq!(all.len(), 2);
    assert_eq!(
        select_device(&all, "00008110-001a2b3c00000000", None).unwrap().name,
        "A"
    );
    assert_eq!(select_device(&all, "x", Some(tv("C", "x"))).unwrap().name, "C");
    assert_eq!(
        select_device(&all, "x", None).unwrap_err(),
        "No connected device has UDID x"
    );
    assert_eq!(named_target(&all, Some("b")), Ok(Some(1)));
    assert_eq!(named_target(&all, None), Ok(None));
    assert_eq!(
        named_target(&all, Some("a\"b")),
        Err("Apple TV \"a\\\"b\" was not found".to_string())
    );
    assert_eq!(
        named_target(&Vec::new(), None),
        Err("No Apple TVs found on the network".to_string())
    );
}

#[test]
fn scans_and_reconnections_are_printed() {
    assert_eq!(scan_lines(&Vec::new()), vec!["No Apple TVs found."]);
    assert_eq!(scan_lines(&vec![tv("A", "")]), vec![tv("A", "").to_text()]);
    assert_eq!(reconnect_lines(&Vec::new()), vec!["No Apple TVs found."]);
    assert_eq!(
        reconnect_lines(&vec![tv("A", UDID), tv("B", "")]),
        vec![
            format!("Reconnected {}", tv("A", UDID).to_text()),
            "B is paired but its authenticated UDID is unavailable".to_string(),
        ]
    );
}

#[test]
fn targets_are_named_by_their_arguments() {
    let d = forget_target(Some("Living Room".to_string()), None, "/c".to_string()).unwrap();
    assert_eq!(d.pairing_identity.as_deref(), Some("Living-Room"));
    let d = forget_target(None, Some("Living-Room".to_string()), "/c".to_string()).unwrap();
    assert_eq!(d.name, "Living Room");
    assert_eq!(
        forget_target(None, None, "/c".to_string()).unwrap_err(),
        "--name or --identity is required"
    );
    let ip = IpAddress::v4("10.0.0.5");
    let d = addressed_target(None, ip.clone(), Some(7), "/c".to_string()).unwrap();
    assert_eq!(d.name, "Apple TV");
    assert_eq!(d.pairing_identity.as_deref(), Some("Apple-TV"));
    assert_eq!(d.pairing_address.unwrap().to_text(), "10.0.0.5:7");
    assert_eq!(
        addressed_target(None, ip, None, "/c".to_string()).unwrap_err(),
        "--port is required with --ip"
    );
    assert_eq!(
        pairing_target(Some(IpAddress::v6("fe80::1")), Some(7)).unwrap().to_text(),
        "[fe80::1]:7"
    );
    assert_eq!(
        pairing_target(None, Some(7)).unwrap_err(),
        "--ip and --port are required to pair; run `plumesign pair discover` to find them"
    );
}

#[test]
fn a_paired_device_is_printed_once_it_told_its_identifier() {
    assert_eq!(
        paired_line(&tv("A", UDID)).unwrap(),
        "Paired A (Apple TV, tvOS, UDID 00008110-001A2B3C00000000)"
    );
    assert_eq!(
        paired_line(&tv("A", "")).unwrap_err(),
        "Pairing succeeded but the authenticated Apple TV UDID was not returned"
    );
}

#[test]
fn apps_are_offered_and_chosen() {
    assert_eq!(app_lines(&Vec::new()).unwrap_err(), "No supported installed apps found");
    let apps = vec![
        SignerAppReal { app: SignerApp::Feather, bundle_id: Some("a.b".to_string()) },
        SignerAppReal { app: SignerApp::SideStore, bundle_id: None },
    ];
    assert_eq!(
        app_lines(&apps).unwrap(),
        vec!["Feather (a.b)", "SideStore (unknown bundle)"]
    );
    assert_eq!(chosen_app(&apps, 0).unwrap(), "a.b");
    assert_eq!(chosen_app(&apps, 1).unwrap_err(), "Selected app has no bundle identifier");
}

#[test]
fn the_program_and_the_pin_are_read() {
    assert_eq!(invocation(None), "plumesign");
    assert_eq!(invocation(Some(String::new())), "plumesign");
    assert_eq!(invocation(Some("./p".to_string())), "./p");
    assert_eq!(typed_pin(Some(" 123456\r\n")), "123456");
    assert_eq!(typed_pin(None), "");
}
