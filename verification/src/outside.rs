//! Calls into the crates that read and write formats, compute digests and format debug text.
use crate::plist_dates::dates_fit;
use crate::plist_model::{Instant, PlistDictionary, PlistModel, PlistValue};
use crate::plist_value::{data_entry, flat, text_entry, writable};
use crate::records::PairingKeys;
use crate::tray::Picture;
use crate::xml_dates::xml_dates_fit;
use vstd::prelude::*;

verus! {

/// The error of the `plist` crate.
#[verifier::external_type_specification]
#[verifier::external_body]
pub struct ExPlistError(plist::Error);

/// A value of the `plist` crate.
#[verifier::external_type_specification]
#[verifier::external_body]
pub struct ExPlistValue(plist::Value);

/// A number of the `plist` crate.
#[verifier::external_type_specification]
#[verifier::external_body]
pub struct ExPlistInteger(plist::Integer);

/// A date of the `plist` crate.
#[verifier::external_type_specification]
#[verifier::external_body]
pub struct ExPlistDate(plist::Date);

/// The error of the `x509-certificate` crate.
#[verifier::external_type_specification]
#[verifier::external_body]
pub struct ExCertificateError(x509_certificate::X509CertificateError);

/// What `plist::Value::from_reader_xml` reads from `data`; none where it fails.
pub uninterp spec fn xml_plist(data: Seq<u8>) -> Option<PlistModel>;

/// The dictionary that `plist::from_bytes` reads from `data`; none where it fails.
pub uninterp spec fn dictionary_plist(data: Seq<u8>) -> Option<Seq<(Seq<char>, PlistModel)>>;

/// What `plist::Value::to_writer_xml` writes for a value; none where it fails.
pub uninterp spec fn plist_as_xml(value: PlistModel) -> Option<Seq<u8>>;

/// The instants, in nanoseconds since the Unix epoch, from and until which the certificate `der`
/// is valid; none where `der` is no certificate.
pub uninterp spec fn certificate_window(der: Seq<u8>) -> Option<(int, int)>;

/// A text as `{:?}` shows it.
pub uninterp spec fn debug_quoted(text: Seq<char>) -> Seq<char>;

/// `text` without the first match of the regular expression `pattern`; none where `pattern` is no
/// regular expression.
pub uninterp spec fn without_match(pattern: Seq<char>, text: Seq<char>) -> Option<Seq<char>>;

/// A `plist::Integer` as a number: `as_signed` where that gives one, else `as_unsigned`.
#[verifier::external_body]
fn integer_from_plist(n: plist::Integer) -> PlistValue {
    match n.as_signed() {
        Some(n) => PlistValue::Signed(n),
        None => PlistValue::Unsigned(n.as_unsigned().unwrap_or_default()),
    }
}

/// A `plist::Date` as whole seconds and nanoseconds, by way of `chrono::DateTime`.
#[verifier::external_body]
fn date_from_plist(date: plist::Date) -> Instant {
    let time = chrono::DateTime::<chrono::Utc>::from(std::time::SystemTime::from(date));
    Instant { seconds: time.timestamp(), nanos: time.timestamp_subsec_nanos() }
}

/// A `plist::Value` in this library's own type, kind for kind. The crate has no kinds beyond the
/// nine that are told apart.
#[verifier::external_body]
fn from_plist(value: plist::Value) -> PlistValue {
    match value {
        plist::Value::Array(items) => PlistValue::Array(items.into_iter().map(from_plist).collect()),
        plist::Value::Dictionary(d) => PlistValue::Dict(entries_from_plist(d)),
        plist::Value::Boolean(b) => PlistValue::Boolean(b),
        plist::Value::Data(d) => PlistValue::Data(d),
        plist::Value::Date(d) => PlistValue::Time(date_from_plist(d)),
        plist::Value::Real(r) => PlistValue::Real(r.to_string()),
        plist::Value::Integer(n) => integer_from_plist(n),
        plist::Value::String(s) => PlistValue::Text(s),
        plist::Value::Uid(u) => PlistValue::Uid(u.get()),
        _ => PlistValue::Boolean(false),
    }
}

/// A dictionary of the `plist` crate.
#[verifier::external_type_specification]
#[verifier::external_body]
pub struct ExPlistEntries(plist::Dictionary);

/// A `plist::Dictionary` in this library's own type, entry for entry and in the same order.
#[verifier::external_body]
fn entries_from_plist(d: plist::Dictionary) -> PlistDictionary {
    PlistDictionary { entries: d.into_iter().map(|(k, v)| (k, from_plist(v))).collect() }
}

/// This library's value as a `plist::Value`, kind for kind.
#[verifier::external_body]
fn to_plist(value: &PlistValue) -> plist::Value {
    match value {
        PlistValue::Array(items) => plist::Value::Array(items.iter().map(to_plist).collect()),
        PlistValue::Dict(d) => entries_to_plist(d).into(),
        PlistValue::Boolean(b) => (*b).into(),
        PlistValue::Data(d) => plist::Value::Data(d.clone()),
        PlistValue::Time(d) => date_to_plist(*d).into(),
        PlistValue::Real(t) => plist::Value::Real(t.parse().unwrap_or_default()),
        PlistValue::Signed(n) => (*n).into(),
        PlistValue::Unsigned(n) => (*n).into(),
        PlistValue::Text(s) => s.clone().into(),
        PlistValue::Uid(n) => plist::Value::Uid(plist::Uid::new(*n)),
    }
}

/// This library's dictionary as a `plist::Dictionary`, entry for entry and in the same order.
#[verifier::external_body]
fn entries_to_plist(d: &PlistDictionary) -> plist::Dictionary {
    d.entries.iter().map(|(k, v)| (k.clone(), to_plist(v))).collect()
}

/// An instant as a `plist::Date`, by way of `chrono::DateTime`.
#[verifier::external_body]
fn date_to_plist(date: Instant) -> plist::Date {
    let time = chrono::DateTime::from_timestamp(date.seconds, date.nanos).unwrap_or_default();
    plist::Date::from(std::time::SystemTime::from(time))
}

/// `plist::Value::from_reader_xml`: reads the XML property list in `data`. What it reads, and
/// whether it fails, is [`xml_plist`]. A date whose offset takes it behind the year 9999 makes it
/// panic.
#[verifier::external_body]
pub(crate) fn read_xml_plist(data: &[u8]) -> (r: Result<PlistValue, plist::Error>)
    requires
        xml_dates_fit(data@, false),
    ensures
        match r {
            Ok(value) => xml_plist(data@) == Some(value@),
            Err(_) => xml_plist(data@) is None,
        },
{
    plist::Value::from_reader_xml(data).map(from_plist)
}

/// `plist::from_bytes` into a `plist::Dictionary`: reads a property list of any encoding whose root
/// is a dictionary. What it reads, and whether it fails, is [`dictionary_plist`]. Each date is turned
/// into a text on the way, which makes it panic on one before the year zero, and reading one behind
/// the year 9999 makes it panic too.
#[verifier::external_body]
pub(crate) fn read_dictionary(data: &[u8]) -> (r: Result<PlistDictionary, plist::Error>)
    requires
        dates_fit(data@),
    ensures
        match r {
            Ok(d) => dictionary_plist(data@) == Some(d@),
            Err(_) => dictionary_plist(data@) is None,
        },
{
    plist::from_bytes::<plist::Dictionary>(data).map(entries_from_plist)
}

/// `plist::Value::to_writer_xml` into memory. What it writes, and whether it fails, is
/// [`plist_as_xml`]. Dates outside the years with four digits cannot be written. A flat dictionary of
/// printable texts, bytes and dates can always be written, and `plist::from_bytes` gives its texts
/// and its bytes back. Dates are written without an offset and texts with their brackets escaped, so
/// that what is written can be read.
#[verifier::external_body]
pub(crate) fn write_xml_plist(value: &PlistValue) -> (r: Result<Vec<u8>, plist::Error>)
    requires
        writable(value@),
    ensures
        match r {
            Ok(bytes) => plist_as_xml(value@) == Some(bytes@) && dates_fit(bytes@) && (value@
                matches PlistModel::Dict(d) ==> (flat(d) ==> reads_back(d, dictionary_plist(bytes@)))),
            Err(_) => plist_as_xml(value@) is None && !(value@ matches PlistModel::Dict(d) && flat(
                d,
            )),
        },
{
    let mut bytes = Vec::new();
    to_plist(value).to_writer_xml(&mut bytes).map(|_| bytes)
}

/// `back` is a dictionary with the same texts and the same bytes as `d`.
pub open spec fn reads_back(
    d: Seq<(Seq<char>, PlistModel)>,
    back: Option<Seq<(Seq<char>, PlistModel)>>,
) -> bool {
    back matches Some(b) && (forall|key: Seq<char>| #[trigger]
        text_entry(b, key) == text_entry(d, key)) && (forall|key: Seq<char>| #[trigger]
        data_entry(b, key) == data_entry(d, key))
}

/// `CapturedX509Certificate::from_der` and `time_constraints_valid` at the instant `now`: whether
/// `now` lies between the two instants of [`certificate_window`], both included.
#[verifier::external_body]
pub(crate) fn certificate_valid_at(der: &[u8], now: Instant) -> (r: Result<
    bool,
    x509_certificate::X509CertificateError,
>)
    requires
        now.valid(),
    ensures
        match r {
            Ok(valid) => certificate_window(der@) matches Some(w) && valid == (w.0 <= now.at()
                && now.at() <= w.1),
            Err(_) => certificate_window(der@) is None,
        },
{
    let time = chrono::DateTime::from_timestamp(now.seconds, now.nanos);
    x509_certificate::CapturedX509Certificate::from_der(der).map(|c| c.time_constraints_valid(time))
}

/// `format!` with `{:?}` on a text: the text in quotes, with escapes.
#[verifier::external_body]
pub(crate) fn debug_text(text: &str) -> (r: String)
    ensures
        r@ == debug_quoted(text@),
{
    format!("{:?}", text)
}

/// `regex::Regex::new` and `replace` with the empty text: takes the first match of `pattern` out of
/// `text`. What is left, and whether `pattern` is accepted, is [`without_match`].
#[verifier::external_body]
pub(crate) fn remove_match(pattern: &str, text: &str) -> (r: Option<String>)
    ensures
        crate::text::opt_text(r) == without_match(pattern@, text@),
{
    regex::Regex::new(pattern).ok().map(|re| re.replace(text, "").to_string())
}

/// The padded base64 text of `bytes` in the standard alphabet.
pub uninterp spec fn base64_text(bytes: Seq<u8>) -> Seq<char>;

/// `encode` of `base64::engine::general_purpose::STANDARD`: the base64 text of `bytes`, which is
/// [`base64_text`].
#[verifier::external_body]
pub(crate) fn base64_of(bytes: &[u8]) -> (r: String)
    ensures
        r@ == base64_text(bytes@),
{
    base64::Engine::encode(&base64::engine::general_purpose::STANDARD, bytes)
}

/// The error of the `idevice` crate.
#[verifier::external_type_specification]
#[verifier::external_body]
pub struct ExIdeviceError(idevice::IdeviceError);

/// The 32 bytes are a public key for Ed25519 signatures.
pub uninterp spec fn ed25519_public_key(bytes: Seq<u8>) -> bool;

/// The dictionary `d` is a pairing record: it holds a public key, a private key of 32 bytes and an
/// identifier.
pub open spec fn is_pairing_record(d: Seq<(Seq<char>, PlistModel)>) -> bool {
    &&& data_entry(d, "public_key"@) matches Some(key) && key.len() == 32 && ed25519_public_key(key)
    &&& data_entry(d, "private_key"@) matches Some(key) && key.len() == 32
    &&& text_entry(d, "identifier"@) is Some
}

/// `RpPairingFile::from_bytes` of the `idevice` crate: reads a pairing record from a property list
/// of any encoding. It succeeds on a dictionary with a public key, a private key of 32 bytes and an
/// identifier, and gives these back together with the bytes under `alt_irk`, if there are any. It
/// reads by `plist::from_bytes`, and panics on the same dates.
#[verifier::external_body]
pub(crate) fn read_pairing_record(bytes: &[u8]) -> (r: Result<PairingKeys, idevice::IdeviceError>)
    requires
        dates_fit(bytes@),
    ensures
        match r {
            Ok(keys) => dictionary_plist(bytes@) matches Some(d) && is_pairing_record(d)
                && data_entry(d, "public_key"@) == Some(keys.public_key@) && data_entry(
                d,
                "private_key"@,
            ) == Some(keys.private_key@) && text_entry(d, "identifier"@) == Some(keys.identifier@)
                && data_entry(d, "alt_irk"@) == keys.irk() && ed25519_public_key(keys.public_key@),
            Err(_) => !(dictionary_plist(bytes@) matches Some(d) && is_pairing_record(d)),
        },
{
    idevice::remote_pairing::RpPairingFile::from_bytes(bytes).map(|file| PairingKeys {
        public_key: file.public_key_bytes(),
        private_key: file.private_key_bytes(),
        identifier: file.identifier,
        alt_irk: file.alt_irk,
    })
}

/// The text of the name-based identifier (version 3) of `name` in the namespace of domain names.
pub uninterp spec fn dns_uuid(name: Seq<char>) -> Seq<char>;

/// `uuid::Uuid::new_v3` with `NAMESPACE_DNS`, as a text, which is [`dns_uuid`].
#[verifier::external_body]
pub(crate) fn uuid_for_host(name: &str) -> (r: String)
    ensures
        r@ == dns_uuid(name@),
{
    uuid::Uuid::new_v3(&uuid::Uuid::NAMESPACE_DNS, name.as_bytes()).to_string()
}

/// An instant of Coordinated Universal Time as `pattern` shows it.
pub uninterp spec fn utc_text(at: Instant, pattern: Seq<char>) -> Seq<char>;

/// The pattern by which instants are shown: the time, the month and the day.
pub const TIME_PATTERN: &'static str = "%H:%M %b %d";

/// `chrono::DateTime::from_timestamp` and `format`: the instant as `pattern` shows it, which is
/// [`utc_text`]. The instant lies in the calendar of that crate, from the year -262143 to the end
/// of the year 262142.
#[verifier::external_body]
pub(crate) fn show_time(at: Instant, pattern: &str) -> (r: String)
    requires
        pattern@ == TIME_PATTERN@,
        -8_334_601_228_800 <= at.seconds <= 8_210_266_876_799,
        at.nanos < 1_000_000_000,
    ensures
        r@ == utc_text(at, pattern@),
{
    let time = chrono::DateTime::from_timestamp(at.seconds, at.nanos).unwrap();
    time.format(pattern).to_string()
}

/// The error of the `image` crate.
#[verifier::external_type_specification]
#[verifier::external_body]
pub struct ExImageError(image::ImageError);

/// The width, the height and the samples of the PNG picture in `data`; none where it cannot be read.
/// The samples are red, green, blue and alpha of each pixel, row by row.
pub uninterp spec fn png_picture(data: Seq<u8>) -> Option<(int, int, Seq<u8>)>;

/// `image::load_from_memory_with_format` with PNG, and `to_rgba8`: reads a picture. What it reads, and
/// whether it fails, is [`png_picture`]. Each pixel has four samples.
#[verifier::external_body]
pub(crate) fn read_png(data: &[u8]) -> (r: Result<Picture, image::ImageError>)
    ensures
        match r {
            Ok(p) => png_picture(data@) == Some((p.width as int, p.height as int, p.samples@))
                && p.samples@.len() == 4 * (p.width * p.height),
            Err(_) => png_picture(data@) is None,
        },
{
    let picture = image::load_from_memory_with_format(data, image::ImageFormat::Png)?.to_rgba8();
    let (width, height) = picture.dimensions();
    Ok(Picture { width, height, samples: picture.into_raw() })
}

/// The tag that a device advertises is the one of the identifier under the key.
pub uninterp spec fn auth_tag_valid(irk: Seq<u8>, identifier: Seq<char>, tag: Seq<char>) -> bool;

/// `PeerDevice::validate_auth_tag` of the `idevice` crate: whether `tag` is the one of `identifier`
/// under `irk`, which is [`auth_tag_valid`]. Keys of another length than sixteen bytes have no tag.
#[verifier::external_body]
pub(crate) fn auth_tag_matches(irk: &[u8], identifier: &str, tag: &str) -> (r: bool)
    ensures
        r == auth_tag_valid(irk@, identifier@, tag@),
        irk@.len() != 16 ==> !r,
{
    idevice::remote_pairing::PeerDevice::validate_auth_tag(irk, identifier, tag)
}

} // verus!
