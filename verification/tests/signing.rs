use plume::error::PlumeError;
use plume::options::{
    SignerApp, SignerAppReal, SignerInstallMode, SignerMode, SignerOptions, TweakInjectFolder,
    TweakInjectPath, TweakInjection, TweakLoader,
};
use plume::platform::DeveloperPlatform;
use plume::plist_value::{Instant, PlistDictionary, PlistValue};
use plume::provision::MobileProvision;
use plume::registration::{
    alt_app_groups, app_group_requests, executable_path, missing_default_group, profile_path,
    BundleRegistration, RegistrationAction,
};
use plume::signer::{sdk_target, BundleEdit, BundleFacts, BundleType, Signer, SigningCertificate};

fn app(dir: &str) -> BundleFacts {
    BundleFacts {
        dir: dir.to_string(),
        kind: BundleType::App,
        entitled: true,
        identifier: Some("com.example.app".to_string()),
        executable: Some("App".to_string()),
        name: Some("Example".to_string()),
    }
}

fn certificate() -> SigningCertificate {
    SigningCertificate {
        der: None,
        p12_data: Some(vec![1]),
        serial_number: Some("SN".to_string()),
    }
}

fn message<T: std::fmt::Debug>(r: Result<T, PlumeError>) -> String {
    match r {
        Err(PlumeError::Other(m)) => m,
        other => panic!("{other:?}"),
    }
}

#[test]
fn a_bundle_gets_the_identifier_of_its_team() {
    let mut s = Signer::new(None, SignerOptions::default());
    let edits = s.modify_bundle(&app("/a"), &vec![app("/a")], Some("TEAM"));
    assert_eq!(s.options.custom_identifier.as_deref(), Some("com.example.app.TEAM"));
    assert!(edits.iter().any(|e| matches!(
        e,
        BundleEdit::ReplaceIdentifier { dir, from, to }
            if dir == "/a" && from == "com.example.app" && to == "com.example.app.TEAM"
    )));
}

#[test]
fn signing_without_a_team_keeps_the_identifier() {
    let mut s = Signer::new(
        None,
        SignerOptions { mode: SignerMode::Adhoc, ..SignerOptions::default() },
    );
    let edits = s.modify_bundle(&app("/a"), &vec![app("/a")], None);
    assert_eq!(s.options.custom_identifier, None);
    assert!(!edits.iter().any(|e| matches!(e, BundleEdit::ReplaceIdentifier { .. })));
    let mut s = Signer::new(
        None,
        SignerOptions {
            mode: SignerMode::NoModify,
            custom_name: Some("New".to_string()),
            ..SignerOptions::default()
        },
    );
    assert!(s.modify_bundle(&app("/a"), &Vec::new(), None).is_empty());
}

#[test]
fn chosen_features_become_edits() {
    let mut options = SignerOptions {
        custom_name: Some("New".to_string()),
        custom_version: Some("2".to_string()),
        custom_icon: Some("/icon.png".to_string()),
        tweaks: Some(vec!["/t.deb".to_string()]),
        app: SignerApp::SideStore,
        ..SignerOptions::default()
    };
    options.features.support_file_sharing = true;
    options.features.support_liquid_glass = true;
    let mut s = Signer::new(Some(certificate()), options);
    let edits = s.modify_bundle(&app("/a"), &vec![app("/a")], None);
    let has = |key: &str| {
        edits.iter().any(|e| matches!(e, BundleEdit::SetKey { key: k, .. } if k == key))
    };
    assert!(matches!(&edits[0], BundleEdit::SetName(n) if n == "New"));
    assert!(matches!(&edits[1], BundleEdit::SetVersion(v) if v == "2"));
    for key in [
        "UIFileSharingEnabled",
        "UISupportsDocumentBrowser",
        "ALTCertificateID",
        "CFBundleIcons",
        "CFBundleIcons~ipad",
        "UIDesignRequiresCompatibility",
    ] {
        assert!(has(key), "{key}");
    }
    assert!(!has("MinimumOSVersion"));
    assert!(edits.iter().any(|e| matches!(e, BundleEdit::RenderIcon { size: 152, .. })));
    assert!(edits.iter().any(|e| matches!(e, BundleEdit::InstallElleKit)));
    assert!(edits.iter().any(|e| matches!(e, BundleEdit::ApplyTweak(t) if t == "/t.deb")));
    assert!(matches!(edits.last(), Some(BundleEdit::SetSdkVersion(_))));
    assert_eq!(sdk_target(&app("/a"), true).unwrap(), "/a/App");
    assert!(matches!(
        sdk_target(&app("/a"), false),
        Err(PlumeError::BundleInfoPlistMissing)
    ));
}

#[test]
fn a_single_profile_registers_the_app_alone() {
    let extension = BundleFacts { kind: BundleType::AppExtension, ..app("/a/PlugIns/x") };
    let framework = BundleFacts { kind: BundleType::Framework, entitled: false, ..app("/a/f") };
    let bundles = vec![extension, framework, app("/a")];
    let mut s = Signer::new(None, SignerOptions::default());
    assert_eq!(s.registration_targets("/a", &bundles, DeveloperPlatform::Ios), vec![0, 2]);
    s.options.embedding.single_profile = true;
    assert_eq!(s.registration_targets("/a", &bundles, DeveloperPlatform::Ios), vec![2]);
    assert_eq!(s.registration_targets("/a", &bundles, DeveloperPlatform::Tvos), vec![0, 2]);
}

#[test]
fn groups_belong_to_the_team() {
    let groups = vec!["group.a".to_string(), "other".to_string()];
    assert_eq!(app_group_requests(&groups, "T", false), vec!["group.a.T"]);
    assert_eq!(app_group_requests(&groups, "T", true), vec!["group.a"]);
    assert_eq!(
        missing_default_group("id", "T", &Vec::new()).as_deref(),
        Some("group.id.T")
    );
    assert_eq!(missing_default_group("id", "T", &vec!["group.id.T".to_string()]), None);
    assert!(alt_app_groups(SignerApp::Feather, false, &groups, "T").is_none());
    assert!(alt_app_groups(SignerApp::SideStore, true, &groups, "T").is_none());
    match alt_app_groups(SignerApp::SideStore, false, &groups, "T") {
        Some(PlistValue::Array(items)) => {
            assert_eq!(items.len(), 2);
            assert!(matches!(&items[1], PlistValue::Text(t) if t == "other.T"));
        }
        other => panic!("{other:?}"),
    }
}

fn refused_profile() -> MobileProvision {
    MobileProvision {
        data: Vec::new(),
        entitlements: PlistDictionary { entries: Vec::new() },
        expiration_date: Instant { seconds: 0, nanos: 0 },
        platforms: Vec::new(),
        provisioned_devices: Vec::new(),
        developer_certificates: Vec::new(),
    }
}

#[test]
fn a_bundle_is_registered_step_by_step() {
    let mut r = BundleRegistration::new(
        &app("/a"),
        "T",
        false,
        SignerApp::SideStore,
        true,
        Some(vec!["group.a".to_string()]),
    )
    .unwrap();
    assert_eq!((r.id.as_str(), r.name.as_str()), ("com.example.app", "Example"));
    assert!(matches!(r.start(), RegistrationAction::EnsureAppId));
    assert!(matches!(r.app_id_ensured(), RegistrationAction::GetAppId));
    assert!(matches!(
        r.app_id_found(true).unwrap(),
        RegistrationAction::RequestCapabilities
    ));
    assert!(matches!(
        r.capabilities_requested(),
        RegistrationAction::EnsureGroup(g) if g == "group.a.T"
    ));
    assert!(matches!(
        r.group_ensured("group.a.T".to_string()),
        RegistrationAction::EnsureGroup(g) if g == "group.com.example.app.T"
    ));
    assert!(matches!(
        r.group_ensured("group.com.example.app.T".to_string()),
        RegistrationAction::SetGroups(_)
    ));
    assert!(matches!(r.groups_set(), RegistrationAction::AssignGroups));
    assert_eq!(r.group_ids, vec!["group.a.T", "group.com.example.app.T"]);
    assert!(matches!(r.groups_assigned(), RegistrationAction::FetchProfile));
    let now = Instant { seconds: 1_700_000_000, nanos: 0 };
    let ios = DeveloperPlatform::Ios;
    assert!(matches!(
        r.profile_received(&refused_profile(), ios, None, None, None, now).unwrap(),
        RegistrationAction::FetchProfile
    ));
    assert!(matches!(
        r.profile_received(&refused_profile(), ios, None, None, None, now),
        Err(PlumeError::Core(_))
    ));
}

#[test]
fn the_profiles_of_registered_bundles_are_taken_over() {
    let named = |name: &str| MobileProvision {
        platforms: vec![name.to_string()],
        ..refused_profile()
    };
    let names = |s: &Signer| -> Vec<String> {
        s.provisioning_files.iter().map(|p| p.platforms[0].clone()).collect()
    };
    let failure = |m: &str| Err(PlumeError::Other(m.to_string()));
    let mut s = Signer::new(None, SignerOptions::default());
    s.register_bundle_for_device(vec![Ok(named("a")), Ok(named("b"))]).unwrap();
    assert_eq!(names(&s), vec!["a", "b"]);
    assert_eq!(
        message(s.register_bundle_for_device(vec![Ok(named("c")), failure("1"), failure("2")])),
        "1"
    );
    assert_eq!(names(&s), vec!["a", "b"]);
    s.profiles_collected(vec![Ok(named("d"))]).unwrap();
    assert_eq!(names(&s), vec!["d"]);
    assert_eq!(message(s.profiles_collected(vec![failure("3")])), "3");
    s.options.mode = SignerMode::Adhoc;
    s.register_bundle_for_device(vec![Ok(named("e")), failure("4")]).unwrap();
    assert_eq!(names(&s), vec!["d"]);
    s.options.mode = SignerMode::Pem;
    s.register_bundle_for_device(Vec::new()).unwrap();
    assert!(s.provisioning_files.is_empty());
}

#[test]
fn registration_needs_an_executable_and_an_identifier() {
    let new = |b: &BundleFacts| {
        BundleRegistration::new(b, "T", false, SignerApp::Default, false, None)
    };
    let no_executable = BundleFacts { executable: None, ..app("/a") };
    assert_eq!(
        message(executable_path(&no_executable)),
        "Failed to get bundle executable name."
    );
    let nameless = BundleFacts { identifier: None, ..app("/a") };
    assert_eq!(message(new(&nameless)), "Failed to get bundle identifier.");
    let mut r = new(&BundleFacts { name: None, ..app("/a") }).unwrap();
    assert_eq!(r.name, "com.example.app");
    r.app_id_ensured();
    assert_eq!(message(r.app_id_found(false)), "Failed to get ensured app ID.");
    assert_eq!(executable_path(&app("/a")).unwrap(), "/a/App");
    assert_eq!(profile_path(&app("/a")), "/a/embedded.mobileprovision");
}

#[test]
fn settings_are_read_as_they_are_shown() {
    for l in [TweakLoader::ElleKit, TweakLoader::Nothing] {
        assert_eq!(TweakLoader::from_text(l.to_text()), Ok(l));
    }
    for p in [TweakInjectPath::ExecutablePath, TweakInjectPath::RPath] {
        assert_eq!(TweakInjectPath::from_text(p.to_text()), Ok(p));
    }
    for f in [TweakInjectFolder::Root, TweakInjectFolder::Frameworks] {
        assert_eq!(TweakInjectFolder::from_text(f.to_text()), Ok(f));
    }
    assert_eq!(TweakLoader::from_text(" Direct "), Ok(TweakLoader::Nothing));
    assert_eq!(
        TweakLoader::from_text("Other").unwrap_err(),
        "unsupported tweak loader 'other', expected one of: ellekit, none"
    );
    assert_eq!(
        TweakInjectPath::from_text("x").unwrap_err(),
        "unsupported tweak inject path 'x', expected @rpath or @executable_path"
    );
    assert_eq!(
        TweakInjectFolder::from_text("x").unwrap_err(),
        "unsupported tweak inject folder 'x', expected / or Frameworks/"
    );
}

#[test]
fn tweaks_are_loaded_from_where_they_are_put() {
    let custom = TweakInjection::custom(TweakInjectPath::ExecutablePath, TweakInjectFolder::Root);
    assert_eq!(custom.destination_dir("/a.app"), "/a.app");
    assert_eq!(custom.dylib_load_path("t.dylib"), "@executable_path/t.dylib");
    assert_eq!(custom.required_rpath(), None);
    let legacy = TweakInjection::default();
    assert_eq!(legacy.destination_dir("/a.app"), "/a.app/Frameworks");
    assert_eq!(legacy.dylib_load_path("t.dylib"), "@rpath/t.dylib");
    assert_eq!(legacy.framework_load_path("F.framework", "F"), "@rpath/F.framework/F");
}

#[test]
fn apps_are_recognised() {
    assert_eq!(SignerApp::from_bundle_identifier(None), SignerApp::Default);
    assert_eq!(
        SignerApp::from_bundle_identifier_or_name(Some("x.y"), Some("Side Store!")),
        SignerApp::SideStore
    );
    let real = SignerAppReal::from_bundle_identifier(Some("x.y"));
    assert_eq!(real.app, SignerApp::Default);
    assert_eq!(real.bundle_id.as_deref(), Some("x.y"));
    assert_eq!(
        SignerApp::SideStore.pairing_file_path(),
        Some("/Documents/ALTPairingFile.mobiledevicepairing")
    );
    assert!(!SignerApp::LiveContainer.supports_pairing_file());
    assert!(SignerApp::LiveContainer.supports_pairing_file_alt());
    assert_eq!(SignerMode::default().to_text(), SignerMode::Pem.to_text());
    assert_eq!(SignerInstallMode::default(), SignerInstallMode::Install);
    assert_eq!(SignerOptions::new_for_app(SignerApp::Feather).app, SignerApp::Feather);
}

#[test]
fn platforms_have_their_requests() {
    assert_eq!(
        DeveloperPlatform::from_device_metadata(Some("AppleTV11,1"), None, false),
        DeveloperPlatform::Tvos
    );
    assert_eq!(
        DeveloperPlatform::from_device_metadata(Some("iPhone1,1"), Some("iPhone"), false),
        DeveloperPlatform::Ios
    );
    assert!(DeveloperPlatform::Ios.request_fields().is_empty());
    let mut body = PlistDictionary { entries: Vec::new() };
    DeveloperPlatform::Tvos.apply_to(&mut body);
    assert!(matches!(body.get("subPlatform"), Some(PlistValue::Text(t)) if t == "tvOS"));
    assert!(DeveloperPlatform::Tvos.matches_profile_platform("tvos"));
    assert!(!DeveloperPlatform::Tvos.matches_profile_platform("iOS"));
}
