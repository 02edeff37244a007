use aes::cipher::block_padding::Pkcs7;
use aes::cipher::{BlockModeEncrypt, KeyIvInit};
use plume::account::{
    body_snippet, check_error, checked_parse_response, response_part, HttpReply,
};
use plume::anisette::{
    sanitize_gsa_client_info, AnisetteConfiguration, AnisetteData, AnisetteError, AnisetteHeaders,
    AnisetteHeadersProviderType, AUTHKIT_CLIENT_INFO, CLIENT_INFO_HEADER, DEFAULT_ANISETTE_URL,
    GSA_CLIENT_TOKEN,
};
use plume::crypto::{checked_decrypt_cbc, create_session_key, decrypt_cbc};
use plume::error::CoreError;
use plume::plist_value::{PlistDictionary, PlistValue};
use plume::table::Table;

const NOW: u128 = 1_700_000_000_000_000_000;

fn test_data(client_info: &str) -> AnisetteData {
    let mut base_headers: Table<String, String> = Table::new();
    base_headers.insert("X-Mme-Client-Info".to_string(), client_info.to_string());
    AnisetteData {
        base_headers,
        generated_at: NOW,
        config: AnisetteConfiguration::new(),
    }
}

#[test]
fn gsa_client_info_avoids_blocked_xcode_token() {
    assert!(
        AUTHKIT_CLIENT_INFO.contains(GSA_CLIENT_TOKEN),
        "unexpected AUTHKIT_CLIENT_INFO: {}",
        AUTHKIT_CLIENT_INFO
    );
    assert!(
        !AUTHKIT_CLIENT_INFO.contains("com.apple.dt.Xcode"),
        "blocked Xcode token in AUTHKIT_CLIENT_INFO: {}",
        AUTHKIT_CLIENT_INFO
    );
    assert!(
        CLIENT_INFO_HEADER.contains(AUTHKIT_CLIENT_INFO),
        "CLIENT_INFO_HEADER diverged: {}",
        CLIENT_INFO_HEADER
    );
    assert!(
        !CLIENT_INFO_HEADER.contains("com.apple.dt.Xcode"),
        "blocked Xcode token still in CLIENT_INFO_HEADER: {}",
        CLIENT_INFO_HEADER
    );
}

#[test]
fn sanitize_gsa_client_info_replaces_blocked_token() {
    for version in ["3594.4.19", "9999.9.99", "1.0"] {
        let input = format!(
            "<Mac14,2> <macOS;15.7.5;24G624> <com.apple.AuthKit/1 (com.apple.dt.Xcode/{version})>"
        );
        let out = sanitize_gsa_client_info(&input);
        assert!(
            out.contains("com.apple.akd/1.0"),
            "expected accepted akd token for version {version}, got: {out}"
        );
        assert!(
            !out.contains("com.apple.dt.Xcode"),
            "blocked Xcode token still present: {out}"
        );
    }
    let good = "<Mac14,2> <macOS;15.7.5;24G624> <com.apple.AuthKit/1 (com.apple.akd/1.0)>";
    assert_eq!(sanitize_gsa_client_info(good), good);
}

#[test]
fn generated_client_info_avoids_blocked_xcode_token() {
    for base in [
        "<MacBookPro13,2> <macOS;13.1;22C65> <com.apple.AuthKit/1 (com.apple.dt.Xcode/3594.4.19)>",
        "<Mac14,2> <macOS;15.7.5;24G624> <com.apple.AuthKit/1 (com.apple.dt.Xcode/3594.4.19)>",
    ] {
        let headers = test_data(base).generate_headers(false, true, false, NOW);
        let info = headers
            .get("X-Mme-Client-Info")
            .expect("X-Mme-Client-Info must be present");
        assert!(
            info.contains("com.apple.akd/1.0"),
            "expected accepted akd token, got: {info}"
        );
        assert!(
            !info.contains("com.apple.dt.Xcode"),
            "blocked Xcode token still present: {info}"
        );
        let machine_os = &base[..base.find(" <com.apple").unwrap()];
        assert!(
            info.starts_with(machine_os),
            "machine/OS portion lost, got: {info}"
        );
    }
}

#[test]
fn xcode_app_identifiers_are_left_untouched() {
    let headers = test_data(
        "<MacBookPro13,2> <macOS;13.1;22C65> <com.apple.AuthKit/1 (com.apple.dt.Xcode/3594.4.19)>",
    )
    .generate_headers(false, true, true, NOW);
    assert_eq!(
        headers.get("X-Apple-App-Info").map(String::as_str),
        Some("com.apple.gs.xcode.auth")
    );
    assert_eq!(
        headers.get("X-Xcode-Version").map(String::as_str),
        Some("11.2 (11B41)")
    );
}

#[test]
fn vendored_anisette_dep_ships_accepted_client_info() {
    assert!(
        !CLIENT_INFO_HEADER.contains("com.apple.dt.Xcode"),
        "blocked Xcode token in omnisette CLIENT_INFO_HEADER"
    );
    assert!(
        CLIENT_INFO_HEADER.contains(AUTHKIT_CLIENT_INFO),
        "unexpected omnisette CLIENT_INFO_HEADER: {}",
        CLIENT_INFO_HEADER
    );
    for version in ["3594.4.19", "9999.9.99"] {
        let stale = format!(
            "<Mac14,2> <macOS;15.7.5;24G624> <com.apple.AuthKit/1 (com.apple.dt.Xcode/{version})>"
        );
        let clean = sanitize_gsa_client_info(&stale);
        assert!(
            clean.contains("com.apple.akd/1.0") && !clean.contains("com.apple.dt.Xcode"),
            "sanitize failed for {version}: {clean}"
        );
        let headers = test_data(&clean).generate_headers(false, true, false, NOW);
        let info = headers.get("X-Mme-Client-Info").unwrap().clone();
        assert!(
            !info.contains("com.apple.dt.Xcode"),
            "blocked token reached final headers: {info}"
        );
    }
}

#[test]
fn sanitizing_keeps_the_text_around_the_token() {
    assert_eq!(
        sanitize_gsa_client_info("a com.apple.dt.Xcode/1.2-b_3) com.apple.dt.Xcode b"),
        "a com.apple.akd/1.0) com.apple.akd/1.0 b"
    );
    assert_eq!(sanitize_gsa_client_info(""), "");
    let once = sanitize_gsa_client_info("x com.apple.dt.Xcode/9 y");
    assert_eq!(sanitize_gsa_client_info(&once), once);
}

#[test]
fn configuration_has_defaults_and_setters() {
    let c = AnisetteConfiguration::default();
    assert_eq!(c.anisette_url(), DEFAULT_ANISETTE_URL);
    assert_eq!(c.macos_serial, "0");
    assert_eq!(c.configuration_path(), "");
    let c = c
        .set_anisette_url("https://example.org".to_string())
        .set_macos_serial("7".to_string())
        .set_configuration_path("/data".to_string());
    assert_eq!(c.anisette_url(), "https://example.org");
    assert_eq!(c.macos_serial, "7");
    assert_eq!(c.configuration_path(), "/data");
}

#[test]
fn local_headers_come_before_remote_ones() {
    let local: Result<u8, AnisetteError> = Ok(1);
    let r = AnisetteHeaders::get_anisette_headers_provider(local, 2);
    assert_eq!(r.provider, 1);
    assert!(matches!(r.provider_type, AnisetteHeadersProviderType::Local));
    let local: Result<u8, AnisetteError> = Err(AnisetteError::MissingLibraries);
    let r = AnisetteHeaders::get_anisette_headers_provider(local, 2);
    assert_eq!(r.provider, 2);
    assert!(matches!(r.provider_type, AnisetteHeadersProviderType::Remote));
}

#[test]
fn the_local_source_fails_with_its_first_error() {
    let r = AnisetteHeaders::get_ssc_anisette_headers_provider(Ok(()), true, Ok(()), Ok(5u8));
    assert_eq!(r.unwrap().provider, 5);
    let r = AnisetteHeaders::get_ssc_anisette_headers_provider::<u8>(
        Err(AnisetteError::MissingLibraries),
        false,
        Ok(()),
        Err(AnisetteError::Misc),
    );
    assert!(matches!(r.err(), Some(AnisetteError::MissingLibraries)));
    let r = AnisetteHeaders::get_ssc_anisette_headers_provider(Ok(()), false, Ok(()), Ok(5u8));
    assert!(matches!(
        r.err(),
        Some(AnisetteError::InvalidArgument(m)) if m == "configuration.configuration_path"
    ));
    let r = AnisetteHeaders::get_ssc_anisette_headers_provider::<u8>(
        Ok(()),
        true,
        Err(AnisetteError::InvalidLibraryFormat),
        Err(AnisetteError::Misc),
    );
    assert!(matches!(r.err(), Some(AnisetteError::InvalidLibraryFormat)));
    let r = AnisetteHeaders::get_ssc_anisette_headers_provider::<u8>(
        Ok(()),
        true,
        Ok(()),
        Err(AnisetteError::AnisetteNotProvisioned),
    );
    assert!(matches!(r.err(), Some(AnisetteError::AnisetteNotProvisioned)));
}

#[test]
fn headers_expire() {
    let data = test_data("<a> <b> <c>");
    assert!(!data.needs_refresh(NOW));
    assert!(data.is_valid(NOW));
    let later = NOW + 3600 * 1_000_000_000;
    assert!(data.needs_refresh(later));
    assert!(!data.is_valid(later));
}

#[test]
fn a_single_header_is_found_in_any_case() {
    let data = test_data("<Mac14,2> <macOS;15.7.5;24G624> <com.apple.dt.Xcode/1>");
    let got = data.get_header("x-mme-CLIENT-info", NOW).unwrap();
    assert_eq!(
        got,
        "<mac14,2> <macos;15.7.5;24g624> <com.apple.authkit/1 (com.apple.akd/1.0)>"
    );
    assert!(matches!(
        data.get_header("X-Nothing", NOW),
        Err(CoreError::DeveloperSessionRequestFailed)
    ));
}

#[test]
fn headers_become_a_dictionary() {
    let d = test_data("<Mac14,2> <macOS;15.7.5;24G624> <x>").to_plist(true, true, false, NOW);
    assert!(matches!(d.get("bootstrap"), Some(PlistValue::Text(t)) if t == "true"));
    assert!(matches!(d.get("pbe"), Some(PlistValue::Text(t)) if t == "false"));
    assert!(matches!(d.get("loc"), Some(PlistValue::Text(t)) if t == "en_GB"));
    assert!(matches!(d.get("svct"), Some(PlistValue::Text(t)) if t == "iCloud"));
    assert!(d.get("X-Xcode-Version").is_none());
}

fn hex(bytes: &[u8]) -> String {
    bytes.iter().map(|b| format!("{b:02x}")).collect()
}

#[test]
fn session_key_is_an_hmac() {
    // RFC 4231, second test case.
    let key = create_session_key(b"Jefe", "what do ya want for nothing?");
    assert_eq!(
        hex(&key),
        "5bdcc146bf60754e6a042426089575c75a003f089d2739839dec58b964ec3843"
    );
}

#[test]
fn encrypted_data_is_decrypted() {
    let shared = b"shared secret";
    let key = create_session_key(shared, "extra data key:");
    let iv = create_session_key(shared, "extra data iv:");
    let sealed = cbc::Encryptor::<aes::Aes256>::new_from_slices(&key, &iv[..16])
        .unwrap()
        .encrypt_padded_vec::<Pkcs7>(b"a plain text");
    assert_eq!(sealed.len(), 16);
    assert_eq!(decrypt_cbc(shared, &sealed), b"a plain text");
    assert_eq!(checked_decrypt_cbc(shared, &sealed).unwrap(), b"a plain text");
}

#[test]
fn only_whole_blocks_are_decrypted() {
    assert!(checked_decrypt_cbc(b"secret", &[]).is_none());
    assert!(checked_decrypt_cbc(b"secret", &[0; 15]).is_none());
}

fn reply(status: u16, body: &str) -> HttpReply {
    HttpReply {
        status,
        status_text: format!("{status} Somehow"),
        url: "https://gsa.apple.com/grandslam/GsService2".to_string(),
        body: body.to_string(),
    }
}

#[test]
fn a_reply_gives_its_response() {
    let body = "<?xml version=\"1.0\" encoding=\"UTF-8\"?><plist version=\"1.0\"><dict><key>Response</key><dict><key>a</key><string>b</string></dict></dict></plist>";
    let d = checked_parse_response(&reply(200, body)).unwrap().unwrap();
    assert!(matches!(d.get("a"), Some(PlistValue::Text(t)) if t == "b"));
}

#[test]
fn an_unreadable_reply_is_an_error() {
    match checked_parse_response(&reply(503, "<html>\n  no</html>")) {
        Some(Err(CoreError::AuthSrpWithMessage(code, message))) => {
            assert_eq!(code, 503);
            assert_eq!(
                message,
                "Apple authentication request to https://gsa.apple.com/grandslam/GsService2 returned HTTP 503 Somehow (expected a GSA plist). Body: <html> no</html>"
            );
        }
        other => panic!("{other:?}"),
    }
    assert!(matches!(
        checked_parse_response(&reply(200, "no plist")),
        Some(Err(CoreError::Plist(_)))
    ));
    let empty = "<plist version=\"1.0\"><dict></dict></plist>";
    assert!(checked_parse_response(&reply(200, empty)).is_none());
    let late = "<plist version=\"1.0\"><dict><key>Response</key><dict/><key>t</key><date>9999-12-31T23:59:59-01:00</date></dict></plist>";
    assert!(checked_parse_response(&reply(200, late)).is_none());
    assert!(matches!(
        checked_parse_response(&reply(500, late)),
        Some(Err(CoreError::AuthSrpWithMessage(500, _)))
    ));
    let odd = PlistDictionary {
        entries: vec![("Response".to_string(), PlistValue::Boolean(true))],
    };
    assert!(matches!(response_part(&odd), Err(CoreError::Parse)));
}

#[test]
fn long_bodies_are_cut() {
    let long = "a".repeat(500);
    assert_eq!(body_snippet(&long), format!("{}...", "a".repeat(200)));
    assert_eq!(body_snippet("a  b\n c"), "a b c");
    assert_eq!(body_snippet("a\r\nb\tc\u{85}d\u{2028}e\u{b}f\u{c}g\u{2029}"), "a b c d e f g");
}

fn status(code: i64, message: Option<&str>) -> PlistDictionary {
    let mut entries = vec![("ec".to_string(), PlistValue::Signed(code))];
    if let Some(m) = message {
        entries.push(("em".to_string(), PlistValue::Text(m.to_string())));
    }
    PlistDictionary { entries }
}

#[test]
fn error_codes_are_reported() {
    assert!(check_error(&status(0, None)).is_ok());
    match check_error(&status(-20101, Some("wrong"))) {
        Err(CoreError::AuthSrpWithMessage(code, message)) => {
            assert_eq!(code, -20101);
            assert_eq!(message, "wrong");
        }
        other => panic!("{other:?}"),
    }
}
