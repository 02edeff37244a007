use plume::checks::{
    custom_entitlements, EntitlementCheck, EntitlementsSource, SignableBundle, SignedBundle,
    SignedCheck, SignedExecutable, SigningTarget,
};
use plume::error::{CoreError, PlumeError};
use plume::options::{SignerMode, SignerOptions};
use plume::platform::DeveloperPlatform;
use plume::plist_value::{Instant, PlistDictionary, PlistValue};
use plume::provision::{
    application_identifier_bundle_id, application_identifier_grants, application_identifier_team,
    is_valid_device_udid, profile_is_readable, value_grants, MobileProvision,
};
use plume::signer::{BundleFacts, BundleType, Signer, SigningCertificate};
use plume::wildcard::wildcard_matches;
use x509_certificate::{KeyAlgorithm, X509CertificateBuilder};

const UDID: &str = "00008110-001A2B3C00000000";
const APP_ID: &str = "ABCDE12345.com.example.app";

fn now() -> Instant {
    Instant { seconds: chrono::Utc::now().timestamp(), nanos: 0 }
}

fn certificate() -> Vec<u8> {
    let mut builder = X509CertificateBuilder::default();
    builder.subject().append_common_name_utf8_string("signer").unwrap();
    builder.validity_duration(chrono::Duration::hours(1));
    let (cert, _) = builder.create_with_random_keypair(KeyAlgorithm::Ed25519).unwrap();
    cert.encode_der().unwrap()
}

fn dict(entries: &[(&str, PlistValue)]) -> PlistDictionary {
    PlistDictionary {
        entries: entries.iter().map(|(k, v)| (k.to_string(), v.duplicate())).collect(),
    }
}

fn text(s: &str) -> PlistValue {
    PlistValue::Text(s.to_string())
}

fn profile(der: &[u8]) -> MobileProvision {
    MobileProvision {
        data: Vec::new(),
        entitlements: dict(&[
            ("application-identifier", text(APP_ID)),
            ("com.apple.developer.team-identifier", text("ABCDE12345")),
            ("keychain-access-groups", PlistValue::Array(vec![text("ABCDE12345.*")])),
            ("get-task-allow", PlistValue::Boolean(true)),
        ]),
        expiration_date: Instant { seconds: now().seconds + 1000, nanos: 0 },
        platforms: vec!["iOS".to_string()],
        provisioned_devices: vec![UDID.to_string()],
        developer_certificates: vec![der.to_vec()],
    }
}

fn refusal(r: Result<(), CoreError>) -> String {
    match r {
        Err(CoreError::ProvisioningProfileInvalid(m)) => m,
        other => panic!("{other:?}"),
    }
}

#[test]
fn a_profile_is_accepted_for_what_it_grants() {
    let der = certificate();
    let p = profile(&der);
    let wanted = dict(&[
        ("get-task-allow", PlistValue::Boolean(true)),
        ("keychain-access-groups", PlistValue::Array(vec![text("ABCDE12345.x")])),
        ("application-identifier", text("anything")),
    ]);
    assert!(p
        .validate_for(
            DeveloperPlatform::Ios,
            "com.example.app",
            Some("00008110-001a2b3c00000000"),
            Some(&der),
            Some(&wanted),
            now(),
        )
        .is_ok());
}

#[test]
fn a_profile_is_refused_for_each_reason() {
    let der = certificate();
    let p = profile(&der);
    let ios = DeveloperPlatform::Ios;
    let id = "com.example.app";
    assert_eq!(
        refusal(p.validate_for(DeveloperPlatform::Tvos, id, None, Some(&der), None, now())),
        format!("profile does not target {}", DeveloperPlatform::Tvos.to_text())
    );
    let later = Instant { seconds: now().seconds + 2000, nanos: 0 };
    assert_eq!(
        refusal(p.validate_for(ios, id, None, Some(&der), None, later)),
        "profile is expired"
    );
    assert_eq!(
        refusal(p.validate_for(ios, "com.other", None, Some(&der), None, now())),
        "application identifier \"ABCDE12345.com.example.app\" does not match \"com.other\""
    );
    assert_eq!(
        refusal(p.validate_for(ios, id, Some("x"), Some(&der), None, now())),
        "profile does not contain selected Apple TV UDID x"
    );
    assert_eq!(
        refusal(p.validate_for(ios, id, None, None, None, now())),
        "active signing certificate is unavailable"
    );
    assert_eq!(
        refusal(p.validate_for(ios, id, None, Some(&[1, 2]), None, now())),
        "profile does not contain the active signing certificate"
    );
    let unreadable = MobileProvision { developer_certificates: vec![vec![1, 2]], ..profile(&der) };
    assert!(matches!(
        unreadable.validate_for(ios, id, None, Some(&[1, 2]), None, now()),
        Err(CoreError::Certificate(_))
    ));
    let lasting = MobileProvision {
        expiration_date: Instant { seconds: now().seconds + 1_000_000, nanos: 0 },
        ..profile(&der)
    };
    let tomorrow = Instant { seconds: now().seconds + 100_000, nanos: 0 };
    assert_eq!(
        refusal(lasting.validate_for(ios, id, None, Some(&der), None, tomorrow)),
        "active signing certificate is expired or not yet valid"
    );
    let wanted = dict(&[("com.apple.developer.healthkit", PlistValue::Boolean(true))]);
    assert_eq!(
        refusal(p.validate_for(ios, id, None, Some(&der), Some(&wanted), now())),
        "profile does not grant entitlement \"com.apple.developer.healthkit\""
    );
    let nameless = MobileProvision { entitlements: dict(&[]), ..profile(&der) };
    assert_eq!(
        refusal(nameless.validate_for(ios, id, None, Some(&der), None, now())),
        "profile has no application identifier"
    );
}

#[test]
fn signed_entitlements_must_fit_the_profile() {
    let der = certificate();
    let p = profile(&der);
    let ios = DeveloperPlatform::Ios;
    let id = "com.example.app";
    let check = |e: &PlistDictionary| {
        p.validate_final_entitlements(ios, id, None, Some(&der), e, now())
    };
    assert!(check(&dict(&[("application-identifier", text(APP_ID))])).is_ok());
    assert_eq!(
        refusal(check(&dict(&[]))),
        "signed executable has no application identifier"
    );
    assert_eq!(
        refusal(check(&dict(&[("application-identifier", text("nonsense"))]))),
        "signed executable has an invalid application identifier"
    );
    assert_eq!(
        refusal(check(&dict(&[("application-identifier", text("ABCDE12345.com.other"))]))),
        "signed executable application identifier \"ABCDE12345.com.other\" does not match \"com.example.app\""
    );
    assert_eq!(
        refusal(check(&dict(&[("application-identifier", text("ZZZZZ12345.com.example.app"))]))),
        "signed executable team identifier does not match the provisioning profile"
    );
    assert_eq!(
        refusal(check(&dict(&[
            ("application-identifier", text(APP_ID)),
            ("aps-environment", text("production")),
        ]))),
        "profile does not grant entitlement \"aps-environment\""
    );
}

#[test]
fn a_profile_is_read_from_its_envelope() {
    let xml = b"junk<?xml version=\"1.0\"?><plist version=\"1.0\"><dict><key>Entitlements</key><dict><key>application-identifier</key><string>ABCDE12345.com.example.app</string></dict><key>ExpirationDate</key><date>2030-01-02T03:04:05Z</date><key>Platform</key><array><string>iOS</string></array><key>ProvisionedDevices</key><string>u</string><key>DeveloperCertificates</key><array><data>AQI=</data></array></dict></plist>trailing";
    let p = MobileProvision::load_with_bytes(xml.to_vec()).unwrap();
    assert_eq!(p.expiration_date().seconds, 1_893_553_445);
    assert_eq!(p.platforms, vec!["iOS"]);
    assert_eq!(p.provisioned_devices, vec!["u"]);
    assert_eq!(p.developer_certificates, vec![vec![1, 2]]);
    assert_eq!(p.data, xml.to_vec());
    assert!(matches!(
        p.entitlements().get("application-identifier"),
        Some(PlistValue::Text(t)) if t == APP_ID
    ));
    let bytes = p.entitlements_as_bytes().unwrap();
    assert!(String::from_utf8(bytes).unwrap().contains("<string>ABCDE12345.com.example.app</string>"));
    assert_eq!(
        p.bundle_id("^[A-Z0-9]{10}\\.").as_deref(),
        Some("com.example.app")
    );
    assert!(p.bundle_id("(").is_none());
    assert!(matches!(
        MobileProvision::load_with_bytes(b"nothing".to_vec()),
        Err(CoreError::ProvisioningEntitlementsUnknown)
    ));
    assert!(matches!(
        MobileProvision::load_with_bytes(b"<plist><broken></plist>".to_vec()),
        Err(CoreError::Plist(_))
    ));
}

fn dated(date: &str) -> Vec<u8> {
    format!("<plist version=\"1.0\"><dict><key>Entitlements</key><dict/><key>ExpirationDate</key><date>{date}</date></dict></plist>")
        .into_bytes()
}

#[test]
fn a_date_that_cannot_be_held_is_not_read() {
    let late = dated("9999-12-31T23:59:59-01:00");
    assert!(!profile_is_readable(&late));
    assert!(MobileProvision::checked_load_with_bytes(late).is_none());
    let seconds = |date: &str| {
        let p = MobileProvision::checked_load_with_bytes(dated(date)).unwrap().unwrap();
        p.expiration_date().seconds
    };
    assert_eq!(seconds("9999-12-31T23:59:59Z"), 253_402_300_799);
    assert_eq!(seconds("2030-01-02T03:04:05+01:00"), 1_893_553_445 - 3600);
    assert_eq!(seconds("1969-12-31T23:59:59Z"), -1);
    assert_eq!(seconds("9999-12-31T22:59:59-01:00"), 253_402_300_799);
    assert_eq!(seconds("0000-01-01T00:00:00+01:00"), -62_167_222_800);
    assert!(MobileProvision::checked_load_with_bytes(dated("someday")).unwrap().is_err());
    assert!(MobileProvision::checked_load_with_bytes(b"</plist> <plist".to_vec()).is_none());
}

#[test]
fn entitlements_of_a_binary_are_merged() {
    let mut p = profile(&[]);
    let merge = |own: PlistDictionary, binary: PlistDictionary, team: Option<String>, id: String| {
        let mut all = own;
        for (k, v) in binary.entries {
            all.insert(k, v);
        }
        all.insert("team".to_string(), PlistValue::Text(team.unwrap()));
        all.insert("id".to_string(), PlistValue::Text(id));
        all
    };
    let binary = dict(&[("x", PlistValue::Boolean(true))]);
    p.merge_entitlements(Some(binary), "new.id", &merge).unwrap();
    assert!(matches!(p.entitlements().get("x"), Some(PlistValue::Boolean(true))));
    assert!(matches!(p.entitlements().get("team"), Some(PlistValue::Text(t)) if t == "ABCDE12345"));
    assert!(matches!(p.entitlements().get("id"), Some(PlistValue::Text(t)) if t == "new.id"));
    assert!(matches!(
        p.merge_entitlements(None, "new.id", &merge),
        Err(CoreError::ProvisioningEntitlementsUnknown)
    ));
}

#[test]
fn identifiers_are_taken_apart_and_granted() {
    assert_eq!(
        application_identifier_bundle_id(APP_ID).as_deref(),
        Some("com.example.app")
    );
    assert_eq!(application_identifier_bundle_id("short.com"), None);
    assert_eq!(application_identifier_bundle_id("ABCDE12345."), None);
    assert_eq!(application_identifier_team("ABCDE12345.").as_deref(), Some("ABCDE12345"));
    assert!(application_identifier_grants("ABCDE12345.*", "com.x"));
    assert!(application_identifier_grants("ABCDE12345.com.x.*", "com.x.y"));
    assert!(!application_identifier_grants("ABCDE12345.com.x.*", "com.xy"));
    assert!(!application_identifier_grants("ABCDE12345.com.x.*", "com.x"));
}

#[test]
fn values_are_granted_by_kind() {
    assert!(value_grants(&text("a*c"), &text("abbc")));
    assert!(!value_grants(&text("a*c"), &text("abb")));
    assert!(value_grants(
        &PlistValue::Array(vec![text("a"), text("b*")]),
        &PlistValue::Array(vec![text("b1"), text("a")])
    ));
    assert!(!value_grants(&PlistValue::Array(vec![text("a")]), &text("a")));
    assert!(value_grants(
        &PlistValue::Dict(dict(&[("k", text("*"))])),
        &PlistValue::Dict(dict(&[("k", text("v"))]))
    ));
    assert!(!value_grants(
        &PlistValue::Dict(dict(&[])),
        &PlistValue::Dict(dict(&[("k", text("v"))]))
    ));
    assert!(value_grants(&PlistValue::Signed(3), &PlistValue::Unsigned(3)));
    assert!(!value_grants(
        &PlistValue::Real("NaN".to_string()),
        &PlistValue::Real("NaN".to_string())
    ));
    assert!(value_grants(
        &PlistValue::Real("-0".to_string()),
        &PlistValue::Real("0".to_string())
    ));
}

#[test]
fn stars_stand_for_any_text() {
    assert!(wildcard_matches("*", ""));
    assert!(wildcard_matches("a*b*c", "axxbyyc"));
    assert!(!wildcard_matches("a*b*c", "acb"));
    assert!(wildcard_matches("abc", "abc"));
    assert!(!wildcard_matches("ab*ba", "aba"));
}

#[test]
fn device_identifiers_have_two_forms() {
    assert!(is_valid_device_udid(UDID));
    assert!(is_valid_device_udid("0123456789abcdef0123456789abcdef01234567"));
    assert!(!is_valid_device_udid("00008110_001A2B3C00000000"));
    assert!(!is_valid_device_udid(""));
}

fn app() -> BundleFacts {
    BundleFacts {
        dir: "/tmp/App.app".to_string(),
        kind: BundleType::App,
        entitled: true,
        identifier: Some("com.example.app".to_string()),
        executable: Some("App".to_string()),
        name: Some("App".to_string()),
    }
}

fn signer(der: &[u8]) -> Signer {
    let mut s = Signer::new(
        Some(SigningCertificate {
            der: Some(der.to_vec()),
            p12_data: None,
            serial_number: None,
        }),
        SignerOptions::default(),
    );
    s.provisioning_files.push(profile(der));
    s
}

#[test]
fn signing_needs_a_fitting_profile() {
    let der = certificate();
    let s = signer(&der);
    let ios = DeveloperPlatform::Ios;
    assert_eq!(s.select_profile(ios, "com.example.app", None, None, now()).unwrap(), 0);
    assert!(s.select_profile(ios, "com.other", None, None, now()).is_err());
    assert_eq!(s.embedded_profile(&app(), ios, None, None, now()), Some(0));
    let target =
        || SigningTarget { platform: ios, device_udid: Some(UDID), now: now() };
    let merge = |own: PlistDictionary, binary: PlistDictionary, team: Option<String>, id: String| {
        assert_eq!(own.entries.len(), 4);
        assert_eq!(binary.entries.len(), 1);
        assert_eq!(team.as_deref(), Some("ABCDE12345"));
        assert_eq!(id, "com.example.app");
        own
    };
    let unread = || -> Result<PlistValue, PlumeError> { panic!("no entitlements were chosen") };
    assert!(s.validate_provisioning_files(signable(app()), target(), merge, unread).is_ok());
    let empty = Signer::new(None, SignerOptions::default());
    assert!(empty.validate_provisioning_files(signable(app()), target(), merge, unread).is_err());
    let merged = s.effective_profile(0, Some(&requested()), "com.example.app", &merge).unwrap();
    assert_eq!(merged.platforms, vec!["iOS"]);
    // Merged entitlements that name another app are refused.
    let other = |_: PlistDictionary, _: PlistDictionary, _: Option<String>, _: String| {
        dict(&[("application-identifier", text("ABCDE12345.com.other"))])
    };
    assert!(matches!(
        s.validate_provisioning_files(signable(app()), target(), other, unread),
        Err(PlumeError::Core(CoreError::ProvisioningProfileInvalid(_)))
    ));
    let framework = BundleFacts { entitled: false, ..app() };
    assert!(matches!(
        s.validate_provisioning_files(signable(framework), target(), merge, unread),
        Err(PlumeError::Core(CoreError::ProvisioningProfileInvalid(m)))
            if m == "no signable app or extension bundles were found"
    ));
}

fn requested() -> PlistDictionary {
    dict(&[("get-task-allow", PlistValue::Boolean(true))])
}

fn signable(facts: BundleFacts) -> Vec<SignableBundle> {
    vec![SignableBundle { facts, entitlements: Ok(Some(requested())) }]
}

#[test]
fn an_executable_must_be_readable() {
    let der = certificate();
    let s = signer(&der);
    let merge =
        |own: PlistDictionary, _: PlistDictionary, _: Option<String>, _: String| own;
    let run = |mut first: Vec<SignableBundle>, facts: BundleFacts| {
        first.push(SignableBundle {
            facts,
            entitlements: Err(PlumeError::Other("damaged".to_string())),
        });
        let target = SigningTarget {
            platform: DeveloperPlatform::Ios,
            device_udid: Some(UDID),
            now: now(),
        };
        match s.validate_provisioning_files(first, target, merge, || Ok(PlistValue::Boolean(false))) {
            Err(PlumeError::Other(m)) => m,
            other => panic!("{other:?}"),
        }
    };
    assert_eq!(run(Vec::new(), app()), "damaged");
    assert_eq!(run(signable(app()), app()), "damaged");
    let nameless = BundleFacts { identifier: None, ..app() };
    assert_eq!(run(Vec::new(), nameless), "Signable bundle has no bundle identifier");
    let empty = BundleFacts { executable: None, ..app() };
    assert_eq!(run(signable(empty), app()), "Signable bundle has no executable");
}

#[test]
fn an_executable_without_entitlements_cannot_be_merged() {
    let der = certificate();
    let s = signer(&der);
    let bundles = vec![SignableBundle { facts: app(), entitlements: Ok(None) }];
    let merge =
        |own: PlistDictionary, _: PlistDictionary, _: Option<String>, _: String| own;
    let target = SigningTarget {
        platform: DeveloperPlatform::Ios,
        device_udid: Some(UDID),
        now: now(),
    };
    assert!(matches!(
        s.validate_provisioning_files(bundles, target, merge, || Ok(PlistValue::Boolean(false))),
        Err(PlumeError::Core(CoreError::ProvisioningEntitlementsUnknown))
    ));
    assert!(matches!(
        s.effective_profile(0, None, "com.example.app", &merge),
        Err(CoreError::ProvisioningEntitlementsUnknown)
    ));
}

#[test]
fn chosen_entitlements_are_read_where_one_profile_serves() {
    let der = certificate();
    let mut s = signer(&der);
    s.options.embedding.single_profile = true;
    s.options.custom_entitlements = Some("/tmp/e.plist".to_string());
    let merge =
        |own: PlistDictionary, _: PlistDictionary, _: Option<String>, _: String| own;
    let run = |read: &dyn Fn() -> Result<PlistValue, PlumeError>| {
        let target = SigningTarget {
            platform: DeveloperPlatform::Ios,
            device_udid: Some(UDID),
            now: now(),
        };
        s.validate_provisioning_files(signable(app()), target, merge, || read())
    };
    assert!(run(&|| Ok(PlistValue::Dict(dict(&[("application-identifier", text(APP_ID))])))).is_ok());
    assert!(matches!(
        run(&|| Ok(PlistValue::Dict(dict(&[
            ("application-identifier", text(APP_ID)),
            ("aps-environment", text("production")),
        ])))),
        Err(PlumeError::Core(CoreError::ProvisioningProfileInvalid(m)))
            if m == "profile does not grant entitlement \"aps-environment\""
    ));
    assert!(matches!(
        run(&|| Ok(PlistValue::Boolean(true))),
        Err(PlumeError::Other(m)) if m == "Custom entitlements file is not a dictionary"
    ));
    assert!(matches!(
        run(&|| Err(PlumeError::Other("gone".to_string()))),
        Err(PlumeError::Other(m)) if m == "gone"
    ));
}

#[test]
fn bundles_without_identifiers_cannot_be_signed() {
    let (id, exe) = Signer::signable(&app()).unwrap();
    assert_eq!(id, "com.example.app");
    assert!(exe.ends_with("App"));
    let nameless = BundleFacts { identifier: None, ..app() };
    assert!(Signer::signable(&nameless).is_err());
    assert!(custom_entitlements(PlistValue::Boolean(true)).is_err());
    assert!(custom_entitlements(PlistValue::Dict(dict(&[]))).is_ok());
}

#[test]
fn a_signed_bundle_is_checked() {
    let der = certificate();
    let s = signer(&der);
    assert!(matches!(
        s.signed_executable(&app()).unwrap(),
        SignedCheck::Executable(path) if path == "/tmp/App.app/App"
    ));
    let other = BundleFacts { kind: BundleType::Unknown, ..app() };
    assert!(matches!(s.signed_executable(&other).unwrap(), SignedCheck::Skip));
    let dylib = BundleFacts { kind: BundleType::Dylib, executable: None, ..app() };
    assert!(matches!(
        s.signed_executable(&dylib).unwrap(),
        SignedCheck::Executable(path) if path == "/tmp/App.app"
    ));
    let empty = BundleFacts { executable: None, ..app() };
    assert!(matches!(
        s.signed_executable(&empty),
        Err(PlumeError::Other(m)) if m == "Signed bundle has no executable"
    ));
    assert!(s.check_signature(&app(), false, &Vec::new()).is_err());
    assert!(s.check_signature(&app(), true, &vec!["bad digest".to_string()]).is_err());
    assert!(matches!(
        s.check_signature(&app(), true, &Vec::new()).unwrap(),
        EntitlementCheck::Profile { bundle_id, .. } if bundle_id == "com.example.app"
    ));
    let adhoc = Signer::new(
        None,
        SignerOptions { mode: SignerMode::Adhoc, ..SignerOptions::default() },
    );
    let library = BundleFacts { kind: BundleType::Framework, entitled: false, ..app() };
    assert!(matches!(
        adhoc.check_signature(&library, true, &vec!["bad digest".to_string()]).unwrap(),
        EntitlementCheck::Done
    ));
    let good = dict(&[("application-identifier", text(APP_ID))]);
    let ios = DeveloperPlatform::Ios;
    assert!(s
        .check_signed_entitlements(&profile(&der), "com.example.app", Some(&good), ios, None, now())
        .is_ok());
    assert!(matches!(
        s.check_signed_entitlements(&profile(&der), "com.example.app", None, ios, None, now()),
        Err(PlumeError::Core(CoreError::ProvisioningProfileInvalid(m)))
            if m == "signed executable has no entitlements"
    ));
}

#[test]
fn entitlements_come_from_one_source() {
    let der = certificate();
    let s = signer(&der);
    assert!(matches!(s.entitlements_source(true), EntitlementsSource::Profile));
    let own = Signer::new(
        None,
        SignerOptions {
            custom_entitlements: Some("/tmp/e.plist".to_string()),
            ..SignerOptions::default()
        },
    );
    assert!(matches!(
        own.entitlements_source(false),
        EntitlementsSource::Empty(xml) if xml.ends_with("<plist version=\"1.0\">\n<dict/>\n</plist>\n")
    ));
    assert!(s.signs(&app()));
}

fn signed(der: &[u8], entitlements: Option<PlistDictionary>) -> SignedBundle {
    SignedBundle {
        facts: app(),
        executable: Ok(SignedExecutable {
            has_code_signature: true,
            problems: Vec::new(),
            entitlements,
        }),
        profile: Ok(profile(der)),
    }
}

#[test]
fn all_signed_bundles_are_checked() {
    let der = certificate();
    let s = signer(&der);
    let target = || SigningTarget {
        platform: DeveloperPlatform::Ios,
        device_udid: Some(UDID),
        now: now(),
    };
    let good = || dict(&[("application-identifier", text(APP_ID))]);
    let other = SignedBundle {
        facts: BundleFacts { kind: BundleType::Unknown, ..app() },
        executable: Err(PlumeError::TweakInvalidPath),
        profile: Err(PlumeError::TweakInvalidPath),
    };
    assert!(s
        .validate_signed_bundle(vec![other, signed(&der, Some(good()))], target())
        .is_ok());
    assert!(matches!(
        s.validate_signed_bundle(vec![signed(&der, Some(good())), signed(&der, None)], target()),
        Err(PlumeError::Core(CoreError::ProvisioningProfileInvalid(_)))
    ));
    let unreadable = SignedBundle {
        executable: Err(PlumeError::BundleInfoPlistMissing),
        ..signed(&der, None)
    };
    assert!(matches!(
        s.validate_signed_bundle(vec![unreadable], target()),
        Err(PlumeError::BundleInfoPlistMissing)
    ));
    let no_profile = SignedBundle {
        profile: Err(PlumeError::PackageInfoPlistMissing),
        ..signed(&der, Some(good()))
    };
    assert!(matches!(
        s.validate_signed_bundle(vec![no_profile], target()),
        Err(PlumeError::PackageInfoPlistMissing)
    ));
}
