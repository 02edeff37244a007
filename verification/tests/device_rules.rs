use plume::apps::{get_app_name_from_info, get_device_for_id, is_app_installed, supported_apps};
use plume::dedup::{
    dedup_keys_for_device, deduplicate_devices, device_quality, format_bytes, merge_devices,
};
use plume::device::{
    pairing_cache_path_for, synthetic_device_id, Connection, Device, DeviceTransport, Endpoint,
    IpAddress, TvosDeviceInfo, UsbmuxdDevice,
};
use plume::discovery::{
    build_device, DiscoveredDevice, REMOTEPAIRING_MANUAL_PAIRING_SERVICE, REMOTEPAIRING_SERVICE,
};
use plume::error::PlumeError;
use plume::pairing::{
    ensure_pairing, is_six_digits, PairingFailure, PairingFlow, PairingRequest, PairingStage,
};
use plume::paths::{extension, file_name, join_path, paths_equal, stem};
use plume::platform::DeveloperPlatform;
use plume::plist_value::{PlistDictionary, PlistValue};
use plume::presence::{
    device_news, wait_after_scan, DeviceNews, Identification, MuxEvent, NetworkPresence,
};
use plume::plist_dates::dates_are_fit;
use plume::records::{
    candidate_source, checked_external_pairing_candidates, external_pairing_candidates,
    external_pairing_file_from_bytes, external_pairing_paths, local_remote_pairing_hostname, local_remote_pairing_identifier,
    native_pairing_candidates_from_bytes, peers_are_fit, ExternalRecord,
};
use plume::table::Table;
use plume::tunnel::{
    attempt_error, directories_for, rsd_pairing_file_name, short_suffix, tunnel_mss,
    tunnel_use_error, AttemptFailure, ImportStep, ImportTrial, ServiceRoute, TunnelAction,
    TunnelSetup, TunnelUseFailure,
};
use plume::tvos::{
    begin_tvos_pairing, pairing_action, pairing_failure_to_error, tvos_create_listener_request,
    tvos_listener_port, tvos_pairing_handshake_allows_pair_setup, tvos_pairing_handshake_request,
    PairingAction, RecordRead, TvosAction, TvosPairing, Verification,
};

const UDID: &str = "00008110-001A2B3C00000000";

fn usb(udid: &str, id: u32) -> UsbmuxdDevice {
    UsbmuxdDevice { connection_type: Connection::Usb, udid: udid.to_string(), device_id: id }
}

fn phone() -> Device {
    let values = PlistValue::Dict(PlistDictionary {
        entries: vec![
            ("DeviceName".to_string(), PlistValue::Text("Phone".to_string())),
            ("ProductType".to_string(), PlistValue::Text("iPhone15,2".to_string())),
            ("DeviceClass".to_string(), PlistValue::Text(String::new())),
            ("ProductVersion".to_string(), PlistValue::Text("18.1".to_string())),
        ],
    });
    Device::from_lockdown_values(usb(UDID, 3), Some(&values))
}

fn tv(name: &str, ip: &str) -> Device {
    Device::new_tvos(
        name.to_string(),
        name.replace(' ', "-"),
        IpAddress::v4(ip),
        Some(49153),
        Some(49152),
        "/cache".to_string(),
    )
}

fn message(e: PlumeError) -> String {
    match e {
        PlumeError::Other(m) => m,
        other => panic!("{other:?}"),
    }
}

#[test]
fn a_phone_is_made_from_what_it_says() {
    let d = phone();
    assert_eq!(d.name, "Phone");
    assert_eq!(d.product_type.as_deref(), Some("iPhone15,2"));
    assert_eq!(d.device_class, None);
    assert_eq!(d.os_version.as_deref(), Some("18.1"));
    assert_eq!(d.device_id, 3);
    assert_eq!(d.transport(), DeviceTransport::Usbmuxd);
    assert_eq!(d.developer_platform(), DeveloperPlatform::Ios);
    assert_eq!(d.to_text(), "[USB] Phone [00008110…0000]");
    let silent = Device::from_lockdown_values(usb("x", 4), None);
    assert_eq!(silent.name, "");
    assert_eq!(silent.to_text(), "[USB] ");
}

#[test]
fn an_apple_tv_is_on_the_network() {
    let d = tv("Living Room", "10.0.0.5");
    assert!(d.is_network() && d.is_tvos());
    assert_eq!(d.transport(), DeviceTransport::RemotePairing);
    assert_eq!(d.to_text(), "[WiFi] Living Room (tvOS) [unpaired]");
    assert_eq!(d.pairing_cache_path("/c").unwrap(), "/c/plume_Living-Room.plist");
    assert_eq!(
        d.core_device_transport("/c".to_string()).unwrap().kind(),
        DeviceTransport::RemotePairing
    );
    assert_eq!(
        message(phone().core_device_transport("/c".to_string()).err().unwrap()),
        "CoreDevice transport cannot wrap a usbmuxd device"
    );
    assert_eq!(
        Endpoint { ip: IpAddress::v6("fe80::1"), port: 5 }.to_text(),
        "[fe80::1]:5"
    );
}

#[test]
fn only_a_valid_identifier_authenticates() {
    let mut d = tv("Living Room", "10.0.0.5");
    let mut info = TvosDeviceInfo::default();
    info.udid = Some("nonsense".to_string());
    info.name = Some(String::new());
    info.os_version = Some("18".to_string());
    d.apply_tvos_info(&info);
    assert_eq!((d.udid.as_str(), d.name.as_str()), ("", "Living Room"));
    assert!(!d.core_device_authenticated);
    assert_eq!(d.os_version.as_deref(), Some("18"));
    info.udid = Some(UDID.to_string());
    d.apply_tvos_info(&info);
    assert_eq!(d.udid, UDID);
    assert_eq!(d.transport(), DeviceTransport::CoreDevice);
    let mut other = phone();
    other.apply_tvos_info(&info);
    assert_eq!(other.os_version.as_deref(), Some("18.1"));
}

#[test]
fn tunnels_tell_of_devices() {
    let d = PlistDictionary {
        entries: vec![
            ("Name".to_string(), PlistValue::Text("TV".to_string())),
            ("UniqueDeviceID".to_string(), PlistValue::Text(UDID.to_string())),
            (
                "HumanReadableProductVersionString".to_string(),
                PlistValue::Text("18.2".to_string()),
            ),
        ],
    };
    let info = TvosDeviceInfo::from_rsd_properties(&d);
    assert_eq!(info.name.as_deref(), Some("TV"));
    assert_eq!(info.udid.as_deref(), Some(UDID));
    assert_eq!(info.os_version.as_deref(), Some("18.2"));
    assert_eq!(info.serial_number, None);
}

#[test]
fn numbers_of_network_devices_are_hashes() {
    // FNV-1a of the empty text, with the top bit set.
    assert_eq!(synthetic_device_id(""), 0x811c_9dc5);
    // FNV-1a of "a" is e40c292c.
    assert_eq!(synthetic_device_id("a"), 0xe40c_292c);
}

#[test]
fn records_have_safe_names() {
    assert_eq!(pairing_cache_path_for(None, "u", "/c").unwrap(), "/c/plume_u.plist");
    assert_eq!(
        message(pairing_cache_path_for(None, "", "/c").unwrap_err()),
        "Device has neither a pairing identity nor a UDID; cannot locate its pairing file cache"
    );
    for bad in ["a/b", "a\\b", "a:b", ".."] {
        assert_eq!(
            message(pairing_cache_path_for(Some(bad), "u", "/c").unwrap_err()),
            format!("Pairing identity {bad:?} is not a valid cache key")
        );
    }
}

#[test]
fn pairing_needs_a_service_and_a_pin() {
    let ok = || Ok(());
    assert_eq!(
        ensure_pairing(true, false, true, true, String::new(), ok()),
        Ok(PairingStage::Reconnected)
    );
    assert_eq!(
        ensure_pairing(true, false, true, false, String::new(), ok()),
        Err(PairingFailure::StaleRecord)
    );
    assert_eq!(
        ensure_pairing(false, false, true, true, "123456".to_string(), ok()),
        Err(PairingFailure::ServiceDisappeared)
    );
    assert_eq!(
        ensure_pairing(false, true, false, true, String::new(), ok()),
        Err(PairingFailure::Cancelled)
    );
    assert_eq!(
        ensure_pairing(false, true, false, true, "12345a".to_string(), ok()),
        Err(PairingFailure::InvalidPin)
    );
    assert_eq!(
        ensure_pairing(false, true, false, true, "123456".to_string(), Err(PairingFailure::WrongPin)),
        Err(PairingFailure::WrongPin)
    );
    assert_eq!(
        ensure_pairing(false, true, false, true, "123456".to_string(), ok()),
        Ok(PairingStage::Paired)
    );
    assert!(is_six_digits("000000") && !is_six_digits("12345") && !is_six_digits("１２"));
    let mut flow = PairingFlow::new(true, true, false);
    assert!(matches!(flow.start(), PairingRequest::Verify));
    assert!(matches!(flow.verified(false), PairingRequest::AskPin));
    assert!(matches!(
        flow.pin_entered("123456".to_string()),
        PairingRequest::Pair(p) if p == "123456"
    ));
    assert!(matches!(
        flow.paired(Ok(())),
        PairingRequest::Finish(Ok(PairingStage::Paired))
    ));
}

fn nest(path: &[&str], leaf: PlistValue) -> PlistValue {
    path.iter().rev().fold(leaf, |inner, key| {
        PlistValue::Dict(PlistDictionary { entries: vec![(key.to_string(), inner)] })
    })
}

#[test]
fn messages_to_an_apple_tv() {
    let request = tvos_pairing_handshake_request("corr");
    let inner = request
        .field("request")
        .and_then(|v| v.field("_0"))
        .and_then(|v| v.field("handshake"))
        .and_then(|v| v.field("_0"))
        .unwrap();
    assert!(matches!(inner.field("wireProtocolVersion"), Some(PlistValue::Signed(26))));
    let allowed = nest(
        &["response", "_1", "handshake", "_0", "deviceOptions", "allowsPairSetup"],
        PlistValue::Boolean(true),
    );
    assert!(tvos_pairing_handshake_allows_pair_setup(&allowed));
    assert!(begin_tvos_pairing(&allowed).is_ok());
    assert!(!tvos_pairing_handshake_allows_pair_setup(&nest(&["response"], PlistValue::Boolean(true))));
    assert!(begin_tvos_pairing(&PlistValue::Boolean(true)).is_err());

    let listener = tvos_create_listener_request(&[1, 2, 3], 77);
    let listener = listener
        .field("request")
        .and_then(|v| v.field("_0"))
        .and_then(|v| v.field("createListener"))
        .unwrap();
    assert!(matches!(listener.field("key"), Some(PlistValue::Text(t)) if t == "AQID"));
    assert!(matches!(
        listener.field("transportProtocolType"),
        Some(PlistValue::Text(t)) if t == "tcp"
    ));
    let port = |n: u64| tvos_listener_port(&nest(&["createListener", "port"], PlistValue::Unsigned(n)));
    assert_eq!(port(49152).unwrap(), 49152);
    assert_eq!(
        message(port(70000).unwrap_err()),
        "missing port in createListener response"
    );
}

#[test]
fn the_way_to_pair_is_chosen() {
    assert!(matches!(pairing_action(true, false, true), Ok(PairingAction::Reconnect)));
    assert!(matches!(pairing_action(false, true, true), Ok(PairingAction::FirstPairing)));
    assert_eq!(
        pairing_action(true, false, false).err().unwrap(),
        "Apple TV pairing record is stale and no pairing service is currently advertised"
    );
    assert!(pairing_action(false, false, true).is_err());
    assert_eq!(
        message(pairing_failure_to_error(PairingFailure::WrongPin)),
        "Apple TV rejected the pairing PIN"
    );
    assert_eq!(
        message(pairing_failure_to_error(PairingFailure::Protocol("x".to_string()))),
        "RPPairing handshake failed: x"
    );
}

#[test]
fn pairing_an_apple_tv_for_the_first_time() {
    let mut d = tv("Living Room", "10.0.0.5");
    d.reconnect_address = None;
    let mut p = TvosPairing::new(&d, "/c").unwrap();
    assert_eq!(p.cache_path, "/c/plume_Living-Room.plist");
    assert!(matches!(p.start(), TvosAction::ReadRecord));
    assert!(matches!(
        p.record_read(RecordRead::Missing),
        TvosAction::ImportExternal(Some(e)) if e.port == 49153
    ));
    let address = match p.imported(Ok(false)) {
        TvosAction::Connect(e) => e,
        other => panic!("{other:?}"),
    };
    assert!(matches!(p.connected(&address, Ok(())), TvosAction::NameHost));
    assert!(matches!(
        p.host_named(Some("mac".to_string())),
        TvosAction::PairWithPin(h) if h == "mac"
    ));
    assert!(matches!(p.paired(Ok(PairingStage::Paired)), TvosAction::WriteRecord));
    assert!(matches!(p.written(Ok(())), TvosAction::RefreshAddress));
    assert!(matches!(p.refreshed(Ok(())), TvosAction::Finish(Ok(()))));
}

#[test]
fn a_stale_record_is_removed() {
    let d = tv("Living Room", "10.0.0.5");
    let mut p = TvosPairing::new(&d, "/c").unwrap();
    let address = match p.record_read(RecordRead::Read) {
        TvosAction::Verify(e) => e,
        other => panic!("{other:?}"),
    };
    assert_eq!(address.port, 49152);
    assert!(matches!(
        p.verified(&address, Verification::Refused { record_exists: true }),
        TvosAction::RemoveRecord
    ));
    assert!(matches!(p.record_removed(), TvosAction::ImportExternal(_)));
    assert!(matches!(p.imported(Ok(false)), TvosAction::Connect(e) if e.port == 49153));
    let mut q = TvosPairing::new(&d, "/c").unwrap();
    let address = match q.record_read(RecordRead::Read) {
        TvosAction::Verify(e) => e,
        other => panic!("{other:?}"),
    };
    match q.verified(&address, Verification::ConnectFailed("no route".to_string())) {
        TvosAction::Finish(Err(e)) => assert_eq!(
            message(e),
            "Failed to reconnect to Apple TV at 10.0.0.5:49152: no route; scan again if the device changed its advertised address"
        ),
        other => panic!("{other:?}"),
    }
}

fn seen(name: &str, ip: &str, port: u16, service: &str) -> DiscoveredDevice {
    let mut props: Table<String, String> = Table::new();
    props.insert("model".to_string(), "AppleTV14,1".to_string());
    build_device(
        name,
        &format!("{}.local.", name.replace(' ', "-")),
        service,
        Some(port),
        &vec![IpAddress::v4(ip)],
        &props,
    )
}

#[test]
fn the_best_fitting_service_is_used_after_pairing() {
    let mut d = tv("Living Room", "10.0.0.5");
    let found = vec![
        seen("Living Room", "10.0.0.9", 1, REMOTEPAIRING_SERVICE),
        seen("Kitchen", "10.0.0.5", 2, REMOTEPAIRING_SERVICE),
        seen("Living Room", "10.0.0.5", 3, REMOTEPAIRING_MANUAL_PAIRING_SERVICE),
    ];
    d.refresh_tvos_reconnect_address(&found).unwrap();
    assert_eq!(d.reconnect_address.unwrap().port, 2);
    let mut lonely = tv("Attic", "10.0.0.77");
    assert_eq!(
        message(lonely.refresh_tvos_reconnect_address(&found).unwrap_err()),
        "Apple TV pairing succeeded, but its verified _remotepairing._tcp service was not found; scan again and retry"
    );
}

fn setup() -> TunnelSetup {
    TunnelSetup::new(
        &None,
        &Some(Endpoint { ip: IpAddress::v4("10.0.0.5"), port: 49152 }),
        Some("tv"),
        "",
        "/c",
    )
    .unwrap()
}

#[test]
fn a_tunnel_is_tried_again_once() {
    let mut s = setup();
    assert!(matches!(s.looked(true), TunnelAction::ReadRecord));
    assert!(matches!(s.record_read(Ok(())), TunnelAction::Attempt));
    assert!(matches!(
        s.attempted(Err(AttemptFailure::PairVerify("x".to_string()))),
        TunnelAction::RemoveAndImport
    ));
    assert!(matches!(s.imported(Ok(true)), TunnelAction::Attempt));
    match s.attempted(Err(AttemptFailure::PairVerify("y".to_string()))) {
        TunnelAction::Finish(Err(e)) => assert_eq!(message(e), "Pair-verify failed: y"),
        other => panic!("{other:?}"),
    }
    let mut s = setup();
    assert!(matches!(s.looked(false), TunnelAction::ImportExternal));
    match s.imported(Ok(false)) {
        TunnelAction::Finish(Err(e)) => assert_eq!(
            message(e),
            "No pairing record is cached for this Apple TV; pair before reconnecting"
        ),
        other => panic!("{other:?}"),
    }
    let mut s = setup();
    s.looked(true);
    s.record_read(Ok(()));
    s.attempted(Err(AttemptFailure::Validate("gone".to_string())));
    match s.imported(Ok(false)) {
        TunnelAction::Finish(Err(e)) => assert_eq!(
            message(e),
            "This Apple TV no longer recognizes this pairing (it may have been reset, forgotten, or lost pairing after a system update); pair with it again: gone"
        ),
        other => panic!("{other:?}"),
    }
    let mut s = setup();
    s.looked(true);
    s.record_read(Ok(()));
    assert!(matches!(s.attempted(Ok(())), TunnelAction::Finish(Ok(()))));
}

#[test]
fn a_tunnel_needs_the_verified_service() {
    let pairing = Some(Endpoint { ip: IpAddress::v4("10.0.0.5"), port: 1 });
    assert_eq!(
        message(TunnelSetup::new(&pairing, &None, Some("tv"), "", "/c").err().unwrap()),
        "Apple TV has only its manual-pairing service; discover its verified _remotepairing._tcp service before opening a tunnel"
    );
    assert_eq!(
        message(TunnelSetup::new(&None, &None, Some("tv"), "", "/c").err().unwrap()),
        "Device has no network address"
    );
    let at = Endpoint { ip: IpAddress::v4("10.0.0.5"), port: 1 };
    assert_eq!(
        message(attempt_error(&AttemptFailure::Connect("x".to_string()), &at)),
        "Could not connect to Apple TV at 10.0.0.5:1: x"
    );
    assert_eq!(
        message(attempt_error(&AttemptFailure::Listener("x".to_string()), &at)),
        "Failed to create tunnel listener: x"
    );
    assert_eq!(
        message(tunnel_use_error(&TunnelUseFailure::Handshake("x".to_string()))),
        "RSD handshake failed: x"
    );
    assert_eq!((tunnel_mss(1280), tunnel_mss(10)), (1220, 0));
}

#[test]
fn records_of_the_system_are_tried_in_turn() {
    let (mut trial, first) = ImportTrial::new(true, 2);
    assert!(matches!(first, ImportStep::Try(0)));
    assert!(matches!(trial.tried(false, false, false), ImportStep::Try(1)));
    assert!(matches!(trial.tried(true, true, true), ImportStep::Import(1)));
    let (mut trial, _) = ImportTrial::new(true, 1);
    assert!(matches!(trial.tried(true, true, false), ImportStep::NoneLeft));
    assert!(matches!(ImportTrial::new(false, 5).1, ImportStep::NoneLeft));
}

#[test]
fn services_are_reached_by_wire_or_tunnel() {
    assert!(matches!(phone().service_route(), Ok(ServiceRoute::Usbmuxd)));
    assert!(matches!(tv("a", "10.0.0.5").install_route(), Ok(ServiceRoute::Tunnel(_))));
    let mut nowhere = tv("a", "10.0.0.5");
    nowhere.pairing_cache_dir = None;
    assert_eq!(
        message(nowhere.service_route().err().unwrap()),
        "Network Apple TV has no pairing cache directory"
    );
    nowhere.pairing_address = None;
    nowhere.reconnect_address = None;
    assert_eq!(
        message(nowhere.service_route().err().unwrap()),
        "Device has no installation transport"
    );
    assert_eq!(
        message(nowhere.install_route().err().unwrap()),
        "Device has no USB connection and no network address; cannot install"
    );
    assert!(phone().require_usb().is_ok());
    assert_eq!(
        message(nowhere.require_usb().unwrap_err()),
        "Device is not connected via USB"
    );
    assert!(nowhere.has_pairing_source(true, false, false));
    assert!(nowhere.has_pairing_source(false, true, true));
    assert!(!nowhere.has_pairing_source(false, false, true));
    assert_eq!(rsd_pairing_file_name("u"), "plume_u.plist");
    assert_eq!(short_suffix("0123456789"), "012345");
    assert_eq!(directories_for("/Documents/SideStore/x.plist"), vec!["/Documents", "/Documents/SideStore"]);
    assert_eq!(directories_for("a/b/c"), vec!["a", "a/b"]);
    assert!(directories_for("c").is_empty());
}

fn plist_bytes(entries: &[(&str, plist::Value)]) -> Vec<u8> {
    let mut d = plist::Dictionary::new();
    for (k, v) in entries {
        d.insert(k.to_string(), v.clone());
    }
    let mut out = Vec::new();
    plist::Value::Dictionary(d).to_writer_xml(&mut out).unwrap();
    out
}

fn system_record() -> (Vec<u8>, Vec<u8>) {
    let file = idevice::remote_pairing::RpPairingFile::generate("host");
    let bytes = plist_bytes(&[
        ("publicKey", plist::Value::Data(file.public_key_bytes())),
        ("privateKey", plist::Value::Data(file.private_key_bytes())),
        ("irk", plist::Value::Data(vec![7; 16])),
    ]);
    (bytes, file.public_key_bytes())
}

#[test]
fn a_record_of_the_system_is_taken_over() {
    let (bytes, public) = system_record();
    let keys = external_pairing_file_from_bytes(&bytes, Some("HOST".to_string())).unwrap();
    assert_eq!(keys.public_key, public);
    assert_eq!(keys.identifier, "HOST");
    assert_eq!(keys.alt_irk, Some(vec![7; 16]));
    assert_eq!(
        message(external_pairing_file_from_bytes(&bytes, None).unwrap_err()),
        "External pairing record has no host identifier"
    );
    assert!(matches!(
        external_pairing_file_from_bytes(b"junk", None),
        Err(PlumeError::Plist(_))
    ));
    let short = plist_bytes(&[("public_key", plist::Value::Data(vec![1, 2]))]);
    assert_eq!(
        message(external_pairing_file_from_bytes(&short, None).unwrap_err()),
        "External pairing record has no valid public key"
    );
    let half = plist_bytes(&[("public_key", plist::Value::Data(public))]);
    assert_eq!(
        message(external_pairing_file_from_bytes(&half, None).unwrap_err()),
        "External pairing record has no valid private key"
    );
}

fn binary_plist(entries: &[(&str, plist::Value)]) -> Vec<u8> {
    let mut d = plist::Dictionary::new();
    for (k, v) in entries {
        d.insert(k.to_string(), v.clone());
    }
    let mut out = Vec::new();
    plist::Value::Dictionary(d).to_writer_binary(&mut out).unwrap();
    out
}

fn date_at(seconds: i64) -> plist::Value {
    let epoch = std::time::SystemTime::UNIX_EPOCH;
    let offset = std::time::Duration::from_secs(seconds.unsigned_abs());
    let time = if seconds < 0 { epoch - offset } else { epoch + offset };
    plist::Value::Date(plist::Date::from(time))
}

#[test]
fn dates_decide_whether_a_list_is_read() {
    let file = idevice::remote_pairing::RpPairingFile::generate("host");
    let record = |date: plist::Value| {
        binary_plist(&[
            ("publicKey", plist::Value::Data(file.public_key_bytes())),
            ("privateKey", plist::Value::Data(file.private_key_bytes())),
            ("since", date),
        ])
    };
    let usual = record(date_at(1_700_000_000));
    assert!(dates_are_fit(&usual));
    let keys = external_pairing_file_from_bytes(&usual, Some("HOST".to_string())).unwrap();
    assert_eq!(keys.public_key, file.public_key_bytes());
    // A date before the year zero.
    let odd = record(date_at(-62_200_000_000));
    assert!(!dates_are_fit(&odd));
    assert!(!peers_are_fit(&vec![usual.clone(), odd.clone()]));
    assert!(peers_are_fit(&vec![usual.clone()]));
    let local = Some("HOST".to_string());
    let record_of = |bytes: Vec<u8>, peers: Vec<Vec<u8>>| ExternalRecord {
        path: "/x/self".to_string(),
        bytes: Some(bytes),
        peer_paths: Vec::new(),
        peer_bytes: peers,
    };
    let early = record_of(odd.clone(), Vec::new());
    assert!(!early.is_fit(&local));
    assert!(checked_external_pairing_candidates(&vec![early], &local).is_none());
    // The peers are read only where the record gives keys.
    let candidates = checked_external_pairing_candidates(
        &vec![record_of(b"junk".to_vec(), vec![odd.clone()]), record_of(usual.clone(), Vec::new())],
        &local,
    );
    assert_eq!(candidates.unwrap().len(), 1);
    assert!(!record_of(usual, vec![odd]).is_fit(&local));
    // A date after the year 9999 is an error.
    let late = record(date_at(253_402_400_000));
    assert!(dates_are_fit(&late));
    assert!(matches!(
        external_pairing_file_from_bytes(&late, Some("HOST".to_string())),
        Err(PlumeError::Plist(_))
    ));
    let xml = |date: &str| format!("<plist><dict><key>a</key><date>{date}</date></dict></plist>");
    assert!(dates_are_fit(xml("2024-02-29T12:00:00+05:30").as_bytes()));
    assert!(dates_are_fit(xml("9999-12-31T23:59:59Z").as_bytes()));
    assert!(!dates_are_fit(xml("9999-12-31T23:59:59-01:00").as_bytes()));
    assert!(!dates_are_fit(xml("0000-01-01T00:00:00+01:00").as_bytes()));
    assert!(dates_are_fit(b"junk"));
}

fn list_with(element: &str) -> Vec<u8> {
    format!("<?xml version=\"1.0\"?>\n<!DOCTYPE plist PUBLIC \"a>b\" 'c'>\n<plist><dict><key>a</key>{element}</dict></plist>\n")
        .into_bytes()
}

#[test]
fn only_dates_that_are_read_count() {
    let late = "9999-12-31T23:59:59-01:00";
    for element in [
        // An offset that stays within the last day, and one that leaves it.
        "<date>9999-12-31T22:59:59-01:00</date>",
        "<date>9999-12-31T23:59:59+01:00</date>",
        "<date>0000-01-01T01:00:00+01:00</date>",
        "<date>0000-01-01T00:00:00-01:00</date>",
        "<date a='>' b=\">\">2024-02-29T12:00:00Z</date>",
        "<date>2024-02-29<!-- <date>9999-12-31T23:59:59-01:00</date> -->T12:00:00Z</date>",
        "<!-- <date>9999-12-31T23:59:59-01:00</date> --><true/>",
        "<?x <date>9999-12-31T23:59:59-01:00</date>?><true/>",
        "<string><![CDATA[<date>9999-12-31T23:59:59-01:00</date>]]></string>",
        "<string>&lt;date>9999-12-31T23:59:59-01:00&lt;/date></string>",
        "<date>&#57;999-12-31T22:59:59-01:00</date>",
    ] {
        let bytes = list_with(element);
        assert!(dates_are_fit(&bytes), "{element}");
        assert!(plist::from_bytes::<plist::Dictionary>(&bytes).is_ok(), "{element}");
    }
    for element in [
        "<date a='>'>9999-12-31T23:59:59-01:00</date>",
        "<x:date >9999-12-31T23:59:59-01:00</x:date>",
        "<date>9999-12<!-- -->-31T23:59:59.25-01:00</date>",
        "<date>&#57;&#x39;99-12-31 23:59:59-01:00</date>",
        "<date>0000-01-01T00:59:60+01:00</date>",
        "<!-- <true/> <!-- --><date>9999-12-31T23:59:59-01:00</date>",
    ] {
        assert!(!dates_are_fit(&list_with(element)), "{element}");
    }
    // Where the reader fails before a date, it does not come to it.
    for bytes in [
        format!("{{ a = \"<date>{late}</date>\"; }}"),
        format!("<plist><unknown/><date>{late}</date></plist>"),
        format!("<plist><string><date>{late}</date></string></plist>"),
        format!("<plist><!-- <date>{late}</date></plist>"),
        format!("<!DOCTYPE plist [<!ENTITY a '<date>{late}</date>'>]><plist><dict/></plist>"),
        format!("<plist><date>{late}"),
        "<date>9999-12-31T23:59:60-01:00</date>".to_string(),
        "<date>9999-12-31T24:00:00-01:00</date>".to_string(),
        "<date>9999-12-31T23:59:59-24:00</date>".to_string(),
        "<date>9999-12-31T23:59:59.-01:00</date>".to_string(),
        "<date>9999-12-31\u{e9}23:59:59-01:00</date>".to_string(),
        "<date>&#0;9999-12-31T23:59:59-01:00</date>".to_string(),
    ] {
        assert!(dates_are_fit(bytes.as_bytes()), "{bytes}");
        let _ = plist::from_bytes::<plist::Dictionary>(bytes.as_bytes());
    }
    let ascii = format!("{{ a = \"<date>{late}</date>\"; }}");
    assert!(plist::from_bytes::<plist::Dictionary>(ascii.as_bytes()).is_ok());
}

/// A binary list: a dictionary with one key, a text, and a date before the year zero to which the
/// dictionary refers or not.
fn binary_with_date(refers: bool) -> Vec<u8> {
    let mut bytes = b"bplist00".to_vec();
    let value: u8 = if refers { 3 } else { 2 };
    let objects: [Vec<u8>; 4] = [
        vec![0xd1, 1, value],
        vec![0x51, b'a'],
        vec![0x51, b'b'],
        [vec![0x33], (-63_200_000_000f64).to_be_bytes().to_vec()].concat(),
    ];
    let mut table = Vec::new();
    for object in objects {
        table.push(bytes.len() as u8);
        bytes.extend(object);
    }
    let start = bytes.len() as u64;
    bytes.extend(table);
    bytes.extend([0, 0, 0, 0, 0, 0, 1, 1]);
    bytes.extend(4u64.to_be_bytes());
    bytes.extend(0u64.to_be_bytes());
    bytes.extend(start.to_be_bytes());
    bytes
}

#[test]
fn only_objects_that_are_referred_to_count() {
    assert!(!dates_are_fit(&binary_with_date(true)));
    let unused = binary_with_date(false);
    assert!(dates_are_fit(&unused));
    assert!(plist::from_bytes::<plist::Dictionary>(&unused).is_ok());
    assert!(matches!(
        external_pairing_file_from_bytes(&unused, None),
        Err(PlumeError::Other(_))
    ));
}

#[test]
fn peers_give_further_candidates() {
    let (bytes, public) = system_record();
    let peers = vec![
        b"junk".to_vec(),
        plist_bytes(&[("altIRK", plist::Value::Data(vec![9; 16]))]),
        plist_bytes(&[("irk", plist::Value::Data(vec![9; 3]))]),
    ];
    let c = native_pairing_candidates_from_bytes(&bytes, &peers, Some("H".to_string())).unwrap();
    assert_eq!(c.len(), 2);
    assert_eq!(c[0].alt_irk, None);
    assert_eq!(c[1].alt_irk, Some(vec![9; 16]));
    assert_eq!(c[1].public_key, public);
    assert_eq!(candidate_source(0, "host", &vec!["p".to_string()]), "host");
    assert_eq!(candidate_source(1, "host", &vec!["p".to_string()]), "p");
    assert_eq!(candidate_source(2, "host", &vec!["p".to_string()]), "host");
    let all = external_pairing_candidates(
        &vec![
            ExternalRecord {
                path: "/x/bad".to_string(),
                bytes: None,
                peer_paths: Vec::new(),
                peer_bytes: Vec::new(),
            },
            ExternalRecord {
                path: "/x/self".to_string(),
                bytes: Some(bytes),
                peer_paths: vec!["/x/p1".to_string(), "/x/p2".to_string()],
                peer_bytes: peers,
            },
        ],
        &Some("H".to_string()),
    );
    let sources: Vec<&str> = all.iter().map(|c| c.0.as_str()).collect();
    assert_eq!(sources, vec!["/x/self", "/x/p1"]);
    assert_eq!(
        external_pairing_paths("/d", vec!["b".to_string(), "a".to_string(), "b".to_string()]),
        vec!["/d/a/selfIdentity.plist", "/d/b/selfIdentity.plist"]
    );
}

#[test]
fn a_native_peer_is_recognised() {
    let mut d = tv("Living Room", "10.0.0.5");
    let peer = plist_bytes(&[
        ("model", plist::Value::String("AppleTV14,1".to_string())),
        ("name", plist::Value::String("living room".to_string())),
    ]);
    assert!(d.is_native_peer(&peer));
    d.product_type = Some("appletv11,1".to_string());
    assert!(!d.is_native_peer(&peer));
    assert!(!d.is_native_peer(b"junk"));
}

#[test]
fn this_machine_has_a_name() {
    let some = |s: &str| Some(s.to_string());
    assert_eq!(local_remote_pairing_hostname(some(" a "), some("b")).as_deref(), Some(" a "));
    assert_eq!(local_remote_pairing_hostname(some("  "), some(" b\n")).as_deref(), Some("b"));
    assert_eq!(local_remote_pairing_hostname(None, some(" ")), None);
    // The name-based identifier of www.example.com in the namespace of domain names.
    assert_eq!(
        local_remote_pairing_identifier(Some("www.example.com")).as_deref(),
        Some("5DF41881-3AED-3515-88A7-2F4A814CF09E")
    );
    assert_eq!(local_remote_pairing_identifier(None), None);
}

#[test]
fn records_of_one_device_are_merged() {
    let mut wired = phone();
    wired.device_id = 0;
    let mut known = phone();
    known.serial_number = Some("S".to_string());
    assert!(!dedup_keys_for_device(&wired).is_empty());
    assert!(device_quality(&known) >= device_quality(&wired));
    let merged = merge_devices(wired.clone(), known.clone());
    assert_eq!(merged.serial_number.as_deref(), Some("S"));
    assert_eq!(merged.device_id, 3);
    let all = deduplicate_devices(vec![wired, tv("TV", "10.0.0.8"), known]);
    assert_eq!(all.len(), 2);
    assert_eq!(all[0].name, "Phone");
    assert_eq!(all[1].name, "TV");
}

#[test]
fn sizes_are_shown() {
    let show = |n: u64| format_bytes(n, |a, b| format!("{:.1}", a as f64 / b as f64));
    assert_eq!(show(999), "999 B");
    assert_eq!(show(1_000), "1 KB");
    assert_eq!(show(999_999), "999 KB");
    assert_eq!(show(1_500_000), "1.5 MB");
    assert_eq!(show(2_250_000_000), "2.2 GB");
}

fn info(pairs: &[(&str, &str)]) -> PlistValue {
    PlistValue::Dict(PlistDictionary {
        entries: pairs
            .iter()
            .map(|(k, v)| (k.to_string(), PlistValue::Text(v.to_string())))
            .collect(),
    })
}

#[test]
fn installed_apps_are_recognised() {
    assert_eq!(
        get_app_name_from_info(&info(&[("CFBundleName", "n"), ("CFBundleExecutable", "e")])),
        Some("n".to_string())
    );
    assert_eq!(get_app_name_from_info(&PlistValue::Boolean(true)), None);
    let apps = supported_apps(&vec![
        ("x.other".to_string(), info(&[("CFBundleDisplayName", "Calculator")])),
        ("x.feather".to_string(), info(&[("CFBundleDisplayName", "Feather")])),
    ]);
    assert_eq!(apps.len(), 1);
    assert_eq!(apps[0].bundle_id.as_deref(), Some("x.feather"));
    assert_eq!(apps[0].app.to_text(), "Feather");
    let ids = vec!["a".to_string(), "b".to_string()];
    assert!(is_app_installed(&ids, "b") && !is_app_installed(&ids, "c"));
}

#[test]
fn a_device_is_found_by_number_or_identifier() {
    let all = vec![usb("AA", 7), usb("BB", 8)];
    assert_eq!(get_device_for_id(&all, "8").unwrap().udid, "BB");
    assert_eq!(get_device_for_id(&all, "aa").unwrap().device_id, 7);
    assert_eq!(
        message(get_device_for_id(&all, "CC").unwrap_err()),
        "Device ID CC not found"
    );
}

#[test]
fn presence_follows_the_scans() {
    let mut p = NetworkPresence::new();
    let mut d = tv("Living Room", "10.0.0.5");
    d.device_id = 5;
    assert!(matches!(p.identification(5, true), Identification::Fetch));
    assert!(matches!(p.identification(5, false), Identification::Skip));
    assert!(p.found(&d));
    assert!(p.scan_ended().is_empty());
    assert!(!p.found(&d));
    assert!(p.scan_ended().is_empty());
    let mut named = TvosDeviceInfo::default();
    named.udid = Some(UDID.to_string());
    p.identified(5, named);
    assert!(matches!(p.identification(5, true), Identification::Known));
    p.enrich(&mut d);
    assert_eq!(d.udid, UDID);
    assert!(p.found(&d));
    assert!(p.scan_ended().is_empty());
    assert!(p.scan_ended().is_empty());
    assert_eq!(p.scan_ended(), vec![5]);
    assert_eq!(wait_after_scan(5_000_000_000), 25_000_000_000);
    assert_eq!(wait_after_scan(40_000_000_000), 0);
    assert!(matches!(device_news(MuxEvent::Disconnected(3)), Some(DeviceNews::Disconnected(3))));
    assert!(device_news(MuxEvent::Unreadable).is_none());
}

#[test]
fn paths_are_taken_apart() {
    assert_eq!(join_path("/a", "b"), "/a/b");
    assert_eq!(join_path("/a/", "b"), "/a/b");
    assert_eq!(join_path("/a", "/b"), "/b");
    assert_eq!(file_name("/a/b.app/").as_deref(), Some("b.app"));
    assert_eq!(file_name("/a/.."), None);
    assert_eq!(extension("b.tar.gz").as_deref(), Some("gz"));
    assert_eq!(extension(".hidden"), None);
    assert_eq!(stem("b.tar.gz"), "b.tar");
    assert!(paths_equal("/a//b/./c", "/a/b/c"));
    assert!(!paths_equal("a/b", "/a/b"));
}
