use plume::device::{Device, IpAddress, TvosDeviceInfo};
use plume::discovery::{
    build_device, DiscoveredDevice, REMOTEPAIRING_MANUAL_PAIRING_SERVICE, REMOTEPAIRING_SERVICE,
};
use plume::error::PlumeError;
use plume::installation::{
    certificate_data, certificate_file_name, choose_team, mac_move_error, mac_stage, plan_delivery,
    plan_signing, record_refresh, refresh_name, scheduled_refresh, sending_progress, step_error,
    target_platform, upload_status, FailedStep, InstallStep, RefreshApp, RefreshDevice,
};
use plume::options::{SignerApp, SignerInstallMode, SignerMode, SignerOptions};
use plume::pairing_screen::{Message, ScreenTask, TvOsPairingScreen};
use plume::pairing_view::{
    authenticated, may_reconnect, sorted_labels, DeviceList, PairingView, PinEntry, ScreenView,
    StatusColor,
};
use plume::platform::DeveloperPlatform;
use plume::plist_value::Instant;
use plume::progress::{
    Message as ProgressMessage, ProgressScreen, ProgressTask, ProgressUpdate,
};
use plume::table::Table;
use plume::tray::{
    progress_icon, progress_title, render_progress_icon, ImpactorTray, MenuEntry, Pixel, TrayAction,
};

const UDID: &str = "00008110-001A2B3C00000000";

fn seen(name: &str, service: &str, port: u16) -> DiscoveredDevice {
    let mut props: Table<String, String> = Table::new();
    props.insert("model".to_string(), "AppleTV14,1".to_string());
    build_device(
        name,
        &format!("{}.local.", name.replace(' ', "-")),
        service,
        Some(port),
        &vec![IpAddress::v4("10.0.0.5")],
        &props,
    )
}

fn status(s: &TvOsPairingScreen) -> (String, bool) {
    let m = s.status.as_ref().unwrap();
    (m.content.clone(), m.is_error)
}

#[test]
fn pairing_on_the_screen() {
    let mut s = TvOsPairingScreen::new();
    assert!(matches!(s.update(Message::Scan, "/c"), ScreenTask::Scan));
    assert!(s.scanning);
    let found = vec![
        seen("Living Room", REMOTEPAIRING_SERVICE, 1),
        seen("Living Room", REMOTEPAIRING_MANUAL_PAIRING_SERVICE, 2),
    ];
    let label = TvOsPairingScreen::device_label(&found[0]);
    assert_eq!(sorted_labels(&found), vec![label.clone()]);
    s.update(Message::ScanComplete(Ok(found)), "/c");
    assert_eq!(status(&s), ("Found 1 Apple TV(s). Select one to pair.".to_string(), false));
    s.update(Message::SelectDevice(label.clone()), "/c");
    match s.update(Message::Pair, "/c") {
        ScreenTask::Pair(d) => {
            assert_eq!(d.pairing_address.unwrap().port, 2);
            assert_eq!(d.reconnect_address.unwrap().port, 1);
        }
        other => panic!("{other:?}"),
    }
    s.update(Message::PinRequested(true), "/c");
    assert!(s.awaiting_pin);
    s.update(Message::PinChanged("12a3 45678".to_string()), "/c");
    assert_eq!(s.pin, "123456");
    assert!(matches!(
        s.update(Message::SubmitPin, "/c"),
        ScreenTask::SendPin(p) if p == "123456"
    ));
    assert_eq!(status(&s).0, "Verifying...");
    let mut d = Device::new_tvos(
        "Living Room".to_string(),
        "Living-Room".to_string(),
        IpAddress::v4("10.0.0.5"),
        None,
        Some(1),
        "/c".to_string(),
    );
    d.udid = UDID.to_string();
    s.update(Message::PairComplete(Ok(d)), "/c");
    assert!(s.paired_device.is_some());
    assert!(matches!(s.view(), ScreenView::Paired(_)));
}

#[test]
fn the_screen_tells_what_is_missing() {
    let mut s = TvOsPairingScreen::new();
    assert!(matches!(s.update(Message::Reconnect, "/c"), ScreenTask::Nothing));
    assert_eq!(
        status(&s),
        ("This Apple TV is not advertising its reconnect service.".to_string(), true)
    );
    s.update(Message::Pair, "/c");
    assert!(status(&s).0.starts_with("This Apple TV isn't showing a pairing PIN."));
    s.update(Message::ScanComplete(Err("Scan failed: x".to_string())), "/c");
    assert_eq!(status(&s), ("Scan failed: x".to_string(), true));
    s.update(Message::ScanComplete(Ok(Vec::new())), "/c");
    assert_eq!(status(&s).0, "No Apple TVs found on this network.");
    match s.view() {
        ScreenView::Pairing(v) => assert!(v.devices.is_none() && v.pin_entry.is_none()),
        other => panic!("{other:?}"),
    }
    assert_eq!(
        may_reconnect(false).unwrap_err(),
        "No saved pairing record exists for this Apple TV. Pair it first."
    );
    let d = Device::new_tvos(
        "a".to_string(),
        "a".to_string(),
        IpAddress::v4("10.0.0.5"),
        None,
        Some(1),
        "/c".to_string(),
    );
    assert_eq!(
        authenticated(d.clone(), &TvosDeviceInfo::default(), true).unwrap_err(),
        "Apple TV reconnected but its authenticated UDID was not returned"
    );
    let mut info = TvosDeviceInfo::default();
    info.udid = Some(UDID.to_string());
    assert_eq!(authenticated(d.clone(), &info, false).unwrap().udid, UDID);
    let mut unpaired = d;
    unpaired.pairing_identity = None;
    unpaired.udid = "x".to_string();
    assert_eq!(
        authenticated(unpaired.clone(), &info, false).unwrap_err(),
        "Apple TV pairing succeeded but its authenticated UDID was not returned"
    );
    unpaired.udid = UDID.to_string();
    info.name = Some("Other".to_string());
    assert_eq!(authenticated(unpaired, &info, false).unwrap().name, "a");
}

fn pairing_view(s: &TvOsPairingScreen) -> PairingView {
    match s.view() {
        ScreenView::Pairing(v) => v,
        other => panic!("{other:?}"),
    }
}

#[test]
fn the_screen_shows_what_can_be_done() {
    let mut s = TvOsPairingScreen::new();
    let v = pairing_view(&s);
    assert_eq!(v.scan.label, "Scan for Apple TVs");
    assert!(matches!(v.scan.sends, Some(Message::Scan)));
    assert!(v.status.is_none() && v.pair.is_none() && v.reconnect.is_none());
    s.update(Message::Scan, "/c");
    let v = pairing_view(&s);
    assert_eq!(v.scan.label, "Scanning...");
    assert!(v.scan.sends.is_none());
    let line = v.status.unwrap();
    assert_eq!((line.content.as_str(), line.color), ("Scanning for Apple TVs...", StatusColor::Green));
    s.update(Message::ScanComplete(Err("Scan failed: x".to_string())), "/c");
    let line = pairing_view(&s).status.unwrap();
    assert_eq!((line.content.as_str(), line.color), ("Scan failed: x", StatusColor::Red));
    let found = vec![
        seen("Living Room", REMOTEPAIRING_SERVICE, 1),
        seen("Living Room", REMOTEPAIRING_MANUAL_PAIRING_SERVICE, 2),
    ];
    s.update(Message::ScanComplete(Ok(found)), "/c");
    let list = pairing_view(&s).devices.unwrap();
    assert_eq!((list.labels.len(), list.selected, list.placeholder), (1, None, "Select an Apple TV"));
    let label = list.labels[0].clone();
    s.update(DeviceList::chosen(label.clone()), "/c");
    let v = pairing_view(&s);
    assert_eq!(v.devices.unwrap().selected, Some(label));
    let (pair, reconnect) = (v.pair.unwrap(), v.reconnect.unwrap());
    assert_eq!((pair.label, reconnect.label), ("Pair", "Reconnect"));
    assert!(matches!(pair.sends, Some(Message::Pair)));
    assert!(matches!(reconnect.sends, Some(Message::Reconnect)));
    s.update(Message::Pair, "/c");
    let v = pairing_view(&s);
    assert_eq!(v.pair.as_ref().unwrap().label, "Pairing...");
    assert!(v.pair.unwrap().sends.is_none() && v.reconnect.unwrap().sends.is_none());
    s.update(Message::PinRequested(true), "/c");
    s.update(PinEntry::typed("12345".to_string()), "/c");
    let entry = pairing_view(&s).pin_entry.unwrap();
    assert_eq!((entry.pin.as_str(), entry.submit.label), ("12345", "Submit"));
    assert_eq!(entry.placeholder, "123456");
    assert!(entry.on_return.is_none() && entry.submit.sends.is_none());
    assert!(matches!(entry.cancel.sends, Some(Message::CancelPin)));
    s.update(PinEntry::typed("123456".to_string()), "/c");
    let v = pairing_view(&s);
    assert!(v.pair.is_none() && v.reconnect.is_none());
    let entry = v.pin_entry.unwrap();
    assert!(matches!(entry.on_return, Some(Message::SubmitPin)));
    assert!(matches!(entry.submit.sends, Some(Message::SubmitPin)));
    let d = Device::new_tvos(
        "TV".to_string(),
        "TV".to_string(),
        IpAddress::v4("10.0.0.5"),
        None,
        Some(1),
        "/c".to_string(),
    );
    s.update(Message::PairComplete(Ok(d)), "/c");
    match s.view() {
        ScreenView::Paired(v) => {
            assert_eq!(v.title, "Paired with TV");
            assert!(v.hint.starts_with("This Apple TV is now selectable in the device list"));
            assert!(matches!(v.start_over.sends, Some(Message::StartOver)));
            assert!(matches!(v.forget.sends, Some(Message::Forget)));
            assert_eq!(v.status.unwrap().color, StatusColor::Green);
        }
        other => panic!("{other:?}"),
    }
}

#[test]
fn progress_is_shown_until_the_end() {
    let mut p = ProgressScreen::default();
    assert!(p.can_go_back());
    p.start_installation();
    assert!(!p.can_go_back());
    let update = ProgressUpdate::new("Signing package...".to_string(), 70);
    assert!(matches!(
        p.update(ProgressMessage::InstallationProgress(update), "Done"),
        ProgressTask::Nothing
    ));
    assert_eq!(p.status_text(), "70% - Signing package...");
    let busy = ProgressUpdate::indeterminate("Sending...".to_string(), 70);
    p.update(ProgressMessage::InstallationProgress(busy), "Done");
    assert_eq!(p.status_text(), "Sending...");
    let end = ProgressUpdate::new("Finished!".to_string(), 100);
    assert!(matches!(
        p.update(ProgressMessage::InstallationProgress(end), "Done"),
        ProgressTask::Finished
    ));
    assert!(p.can_go_back());
    p.start_installation();
    let failed = ProgressUpdate::new("no".to_string(), -1);
    assert!(matches!(
        p.update(ProgressMessage::InstallationProgress(failed), "Done"),
        ProgressTask::ShowError(e) if e == "no"
    ));
    p.update(ProgressMessage::InstallationError("x".to_string()), "Done");
    assert_eq!(p.status, "ERR: x");
    p.update(ProgressMessage::InstallationFinished, "Done");
    assert_eq!((p.progress, p.status.as_str()), (100, "Done"));
    assert!(matches!(p.update(ProgressMessage::Back, "Done"), ProgressTask::Nothing));
}

fn device(udid: &str) -> Device {
    let mut d = Device::new_tvos(
        "TV".to_string(),
        "TV".to_string(),
        IpAddress::v4("10.0.0.5"),
        None,
        Some(1),
        "/c".to_string(),
    );
    d.udid = udid.to_string();
    d
}

fn last_failure(plan: &[InstallStep]) -> &str {
    match plan.last() {
        Some(InstallStep::Fail(m)) => m,
        other => panic!("{other:?}"),
    }
}

#[test]
fn signing_is_planned() {
    let d = device(UDID);
    let plan = plan_signing(SignerMode::Pem, Some(&d), true);
    assert!(matches!(plan[0], InstallStep::Report { progress: 10, .. }));
    assert!(plan.iter().any(|s| matches!(s, InstallStep::RegisterDevice)));
    assert!(matches!(plan.last(), Some(InstallStep::SignBundle)));
    let without = plan_signing(SignerMode::Pem, None, true);
    assert!(!without.iter().any(|s| matches!(s, InstallStep::RegisterDevice)));
    assert_eq!(
        last_failure(&plan_signing(SignerMode::Pem, None, false)),
        "GSA account is required for PEM signing"
    );
    let unknown = plan_signing(SignerMode::Pem, Some(&device("")), true);
    assert_eq!(
        last_failure(&unknown),
        "Device UDID is unknown; cannot register it with Apple"
    );
    assert!(!unknown.iter().any(|s| matches!(s, InstallStep::OpenSession)));
    assert_eq!(plan_signing(SignerMode::Adhoc, None, false).len(), 6);
    assert!(matches!(
        plan_signing(SignerMode::NoModify, None, false).last(),
        Some(InstallStep::ExtractPackage)
    ));
    assert_eq!(target_platform(Some(&d)), DeveloperPlatform::Tvos);
    assert_eq!(target_platform(None), DeveloperPlatform::Ios);
}

#[test]
fn delivery_is_planned() {
    let options = SignerOptions {
        app: SignerApp::SideStore,
        custom_identifier: Some("x.y".to_string()),
        refresh: true,
        mode: SignerMode::Pem,
        install_mode: SignerInstallMode::Install,
        ..SignerOptions::default()
    };
    let plan = plan_delivery(&options, Some(&device(UDID)));
    assert!(matches!(plan[0], InstallStep::ReportBusy { progress: 70, .. }));
    assert!(matches!(plan[1], InstallStep::PackForTransfer));
    assert!(matches!(plan[2], InstallStep::SendToDevice));
    assert!(matches!(
        &plan[3],
        InstallStep::InstallPairingFile { identifier, path }
            if identifier == "x.y" && *path == "/Documents/ALTPairingFile.mobiledevicepairing"
    ));
    assert!(matches!(plan[5], InstallStep::SaveForRefresh));
    assert!(matches!(plan.last(), Some(InstallStep::Report { progress: 100, .. })));
    assert_eq!(
        last_failure(&plan_delivery(&options, None)),
        "No device connected for installation"
    );
    let export = SignerOptions {
        install_mode: SignerInstallMode::Export,
        refresh: false,
        ..SignerOptions::default()
    };
    assert_eq!(plan_delivery(&export, None).len(), 3);
    let mut mac = device(UDID);
    mac.is_mac = true;
    assert!(plan_delivery(&options, Some(&mac))
        .iter()
        .any(|s| matches!(s, InstallStep::InstallOnMac)));
}

#[test]
fn teams_are_chosen() {
    let teams = vec!["A".to_string(), "B".to_string()];
    assert_eq!(choose_team(&teams, "").unwrap(), "A");
    assert_eq!(choose_team(&teams, "B").unwrap(), "B");
    assert_eq!(
        choose_team(&teams, "C").unwrap_err(),
        "Stored team ID 'C' not found in available teams. Please update your team selection in Settings."
    );
    assert_eq!(
        choose_team(&Vec::new(), "").unwrap_err(),
        "No teams available for this account"
    );
    assert_eq!(certificate_file_name("T"), "T_certificate.p12");
    assert_eq!(certificate_data(Some(vec![1])).unwrap(), vec![1]);
    assert_eq!(certificate_data(None).unwrap_err(), "Missing p12 data");
}

#[test]
fn sending_is_reported() {
    assert_eq!(sending_progress(0), 70);
    assert_eq!(sending_progress(99), 89);
    assert_eq!(sending_progress(100), 90);
    assert_eq!(sending_progress(-7), 69);
    let show = |a: u64, b: u64| format!("{:.1}", a as f64 / b as f64);
    assert_eq!(upload_status(Some(2_500_000), show), "Sending to device (2.5 MB)...");
    assert_eq!(upload_status(None, show), "Sending to device...");
    assert_eq!(step_error(FailedStep::Sending, "x"), "Install error: x");
    assert_eq!(step_error(FailedStep::Packing, "x"), "Failed to package for transfer: x");
    assert_eq!(step_error(FailedStep::PackingTask, "x"), "Packaging task failed: x");
    assert_eq!(step_error(FailedStep::Other, "x"), "x");
}

#[test]
fn an_app_for_a_mac_is_wrapped() {
    let m = mac_stage("/tmp", "ab-1", "/x/App.app").unwrap();
    assert_eq!(m.outer_dir, "/tmp/plume_mac_stage_AB-1/App.app");
    assert_eq!(m.inner_dir, "/tmp/plume_mac_stage_AB-1/App.app/Wrapper/App.app");
    assert_eq!(m.link_target, "Wrapper/App.app");
    assert_eq!(m.destination, "/Applications/iOS/App.app");
    assert!(matches!(
        mac_move_error(&m),
        PlumeError::BundleFailedToCopy(p) if p == "/Applications/iOS/App.app"
    ));
    assert!(matches!(
        mac_stage("/tmp", "a", "/"),
        Err(PlumeError::Other(e)) if e == "Invalid app path"
    ));
}

fn refresh(name: Option<&str>, id: &str, path: &str) -> RefreshApp {
    RefreshApp {
        name: name.map(str::to_string),
        bundle_id: Some(id.to_string()),
        path: path.to_string(),
        scheduled_refresh: scheduled_refresh(Instant { seconds: 1_893_553_445, nanos: 0 }),
    }
}

#[test]
fn apps_are_kept_for_refreshing() {
    assert_eq!(refresh_name("My.App.app", "id"), "My.App-id.app");
    assert_eq!(refresh_name("App", "id"), "App-id");
    let first = record_refresh(None, &device(UDID), "me@x", refresh(None, "a", "/1"));
    assert_eq!((first.udid.as_str(), first.account.as_str(), first.apps.len()), (UDID, "me@x", 1));
    let again = record_refresh(Some(first), &device("z"), "you", refresh(None, "a", "/2"));
    assert_eq!((again.udid.as_str(), again.apps.len()), (UDID, 1));
    assert_eq!(again.apps[0].path, "/2");
    let more = record_refresh(Some(again), &device("z"), "you", refresh(None, "b", "/3"));
    assert_eq!(more.apps.len(), 2);
    assert_eq!(more.apps[0].scheduled_refresh.seconds, 1_893_553_445 - 259_200);
}

#[test]
fn the_tray_menu_lists_apps() {
    let mut tray = ImpactorTray::new("Plume");
    assert_eq!(tray.menu.len(), 3);
    assert!(matches!(tray.get_action(0), Some(TrayAction::Show)));
    assert!(tray.get_action(1).is_none());
    let mut d = RefreshDevice::for_device(&device(UDID), "me");
    d.add_app(refresh(Some("App"), "a", "/kept/App.app"));
    d.add_app(refresh(None, "b", "/kept/B.app"));
    let idle = RefreshDevice::for_device(&device("other"), "me");
    tray.update_refresh_apps(
        "Plume",
        &vec![("other".to_string(), idle), (UDID.to_string(), d)],
    );
    assert_eq!(tray.menu.len(), 2 + 1 + 1 + 8 + 1 + 2 + 1);
    assert!(matches!(&tray.menu[2], MenuEntry::OpenSubmenu(l) if l == "Auto-Refresh Apps"));
    assert!(matches!(
        &tray.menu[3],
        MenuEntry::Header { id, label } if *id == format!("header-{UDID}") && label == "TV"
    ));
    // Three days before 2030-01-02 03:04:05.
    assert!(matches!(&tray.menu[4], MenuEntry::OpenSubmenu(l) if l == "App (Next: 03:04 Dec 30)"));
    assert!(matches!(&tray.menu[8], MenuEntry::OpenSubmenu(l) if l == "??? (Next: 03:04 Dec 30)"));
    assert!(matches!(
        tray.get_action(5),
        Some(TrayAction::RefreshApp { udid, app_path }) if udid == UDID && app_path == "/kept/App.app"
    ));
    assert!(matches!(tray.get_action(10), Some(TrayAction::ForgetApp { app_path, .. }) if app_path == "/kept/B.app"));
    assert!(matches!(
        tray.menu.last(),
        Some(MenuEntry::Item { label, action: TrayAction::Quit }) if label == "Quit Plume"
    ));
}

#[test]
fn the_tray_icon_shows_progress() {
    assert_eq!(progress_title(-5), " 0%");
    assert_eq!(progress_title(42), " 42%");
    assert_eq!(progress_title(400), " 100%");
    let dot = Pixel { red: 1, green: 2, blue: 3, alpha: 4 };
    let base: Vec<Vec<Pixel>> = vec![vec![dot; 64]; 64];
    let icon = render_progress_icon(&base, 64, 50);
    assert_eq!((icon.len(), icon[0].len()), (64, 64 + 14 + 132));
    assert_eq!(icon[5][7], dot);
    let alpha = |x: usize, y: usize| icon[y][x].alpha;
    let (x0, y0) = (64 + 14, 26);
    // The round end: its corner is clear, its middle filled; the track goes on behind the fill.
    assert_eq!(alpha(x0, y0), 0);
    assert_eq!(alpha(x0, y0 + 6), 255);
    assert_eq!(alpha(x0 + 30, y0), 255);
    assert_eq!(alpha(x0 + 100, y0), 70);
    assert_eq!(alpha(x0 + 131, y0), 0);
    assert_eq!(alpha(x0 + 30, y0 - 1), 0);
    let empty = render_progress_icon(&base, 64, 0);
    assert_eq!(empty[y0 + 6][x0].alpha, 70);
    let little = render_progress_icon(&base, 64, 1);
    assert_eq!(little[y0 + 6][x0 + 11].alpha, 255);
    assert_eq!(little[y0 + 6][x0 + 12].alpha, 70);
}

fn png(width: u32, height: u32) -> Vec<u8> {
    let picture = image::RgbaImage::from_fn(width, height, |x, y| {
        image::Rgba([x as u8, y as u8, 7, 200])
    });
    let mut bytes = std::io::Cursor::new(Vec::new());
    picture.write_to(&mut bytes, image::ImageFormat::Png).unwrap();
    bytes.into_inner()
}

#[test]
fn the_tray_icon_is_read_from_a_picture() {
    let icon = progress_icon(&png(64, 64), 50).unwrap().unwrap();
    assert_eq!((icon.width, icon.height), (210, 64));
    assert_eq!(icon.samples.len(), 4 * 210 * 64);
    let pixel = |x: usize, y: usize| &icon.samples[4 * (y * 210 + x)..4 * (y * 210 + x) + 4];
    assert_eq!(pixel(3, 9), &[3, 9, 7, 200]);
    assert_eq!(pixel(64 + 14 + 30, 30), &[255, 255, 255, 255]);
    assert_eq!(pixel(64 + 14 + 100, 30), &[255, 255, 255, 70]);
    assert_eq!(pixel(70, 30), &[0, 0, 0, 0]);
    assert!(progress_icon(&png(64, 11), 50).unwrap().is_none());
    let wide = progress_icon(&png(10_500, 12), 50).unwrap().unwrap();
    assert_eq!((wide.width, wide.height), (10_646, 12));
    assert!(matches!(progress_icon(b"junk", 50), Err(PlumeError::Image(_))));
}
