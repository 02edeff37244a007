//! Provisioning profiles: what they hold, and what they let an app do on a device.
use crate::error::CoreError;
use crate::outside::{
    certificate_valid_at, certificate_window, debug_quoted, debug_text, plist_as_xml, read_xml_plist,
    remove_match, without_match, write_xml_plist, xml_plist,
};
use crate::plist_model::{group_plist_models, list_model};
use crate::plist_value::{lookup, text_entry, Instant, PlistDictionary, PlistModel, PlistValue};
use crate::platform::{names_platform, opt_str, platform_name, DeveloperPlatform};
use crate::text::{
    chars_at, chars_of, eq_ignore_case, index_or_len, is_digit, is_hex, is_prefix, is_suffix,
    is_upper, join2, join4, lower, same_ignoring_case, same_text, string_of, texts,
};
use crate::wildcard::{glob, wildcard_matches};
use crate::xml_dates::{xml_dates_are_fit, xml_dates_fit};
use vstd::prelude::*;

verus! {

broadcast use group_plist_models;

// ---------------------------------------------------------------------------
// Device identifiers
// ---------------------------------------------------------------------------

/// `s[from..to]` holds hexadecimal digits alone.
pub open spec fn hex_run(s: Seq<char>, from: int, to: int) -> bool {
    forall|i: int| from <= i < to ==> is_hex(#[trigger] s[i])
}

/// Forty hexadecimal digits, or eight and sixteen of them around a hyphen.
pub open spec fn device_udid(s: Seq<char>) -> bool {
    ||| s.len() == 40 && hex_run(s, 0, 40)
    ||| s.len() == 25 && s[8] == '-' && hex_run(s, 0, 8) && hex_run(s, 9, 25)
}

fn hex_chars(s: &Vec<char>, from: usize, to: usize) -> (r: bool)
    requires
        from <= to <= s@.len(),
    ensures
        r == hex_run(s@, from as int, to as int),
{
    let mut i: usize = from;
    while i < to
        invariant
            from <= i <= to <= s@.len(),
            hex_run(s@, from as int, i as int),
        decreases to - i,
    {
        let c: char = s[i];
        if !(('0' <= c && c <= '9') || ('a' <= c && c <= 'f') || ('A' <= c && c <= 'F')) {
            proof {
                assert(!is_hex(s@[i as int]));
            }
            return false;
        }
        i += 1;
    }
    true
}

/// Whether `value` has the form of a device identifier.
pub fn is_valid_device_udid(value: &str) -> (r: bool)
    ensures
        r == device_udid(value@),
{
    let s: Vec<char> = chars_of(value);
    if s.len() == 40 {
        hex_chars(&s, 0, 40)
    } else if s.len() == 25 {
        s[8] == '-' && hex_chars(&s, 0, 8) && hex_chars(&s, 9, 25)
    } else {
        false
    }
}

// ---------------------------------------------------------------------------
// Application identifiers
// ---------------------------------------------------------------------------

/// Ten upper-case letters or digits.
pub open spec fn team_prefix(t: Seq<char>) -> bool {
    t.len() == 10 && forall|i: int| 0 <= i < 10 ==> is_upper(#[trigger] t[i]) || is_digit(t[i])
}

/// The team of `value`, where it starts with a team and a dot.
pub open spec fn team_of(value: Seq<char>) -> Option<Seq<char>> {
    let dot = index_or_len(value, '.', 0);
    if dot < value.len() && team_prefix(value.take(dot)) {
        Some(value.take(dot))
    } else {
        None
    }
}

/// What follows the team and the dot in `value`, where that is not empty.
pub open spec fn bundle_of(value: Seq<char>) -> Option<Seq<char>> {
    let dot = index_or_len(value, '.', 0);
    if dot + 1 < value.len() && team_prefix(value.take(dot)) {
        Some(value.skip(dot + 1))
    } else {
        None
    }
}

/// A profile for the application identifier `granted` covers the bundle `requested`: it names that
/// bundle, every bundle, or with `.*` at its end every bundle below a name.
pub open spec fn identifier_covers(granted: Seq<char>, requested: Seq<char>) -> bool {
    let bundle = match bundle_of(granted) {
        Some(b) => b,
        None => granted,
    };
    ||| bundle == requested
    ||| bundle == "*"@
    ||| is_suffix(".*"@, bundle) && is_prefix(bundle.take(bundle.len() - 1), requested)
}

/// The index of the first dot, or the length.
fn first_dot(s: &Vec<char>) -> (r: usize)
    ensures
        r == index_or_len(s@, '.', 0),
        r <= s@.len(),
{
    let mut i: usize = 0;
    while i < s.len() && s[i] != '.'
        invariant
            i <= s@.len(),
            index_or_len(s@, '.', 0) == index_or_len(s@, '.', i as int),
        decreases s@.len() - i,
    {
        i += 1;
    }
    i
}

fn team_chars(s: &Vec<char>, to: usize) -> (r: bool)
    requires
        to <= s@.len(),
    ensures
        r == team_prefix(s@.take(to as int)),
{
    if to != 10 {
        return false;
    }
    let mut i: usize = 0;
    while i < 10
        invariant
            i <= 10,
            to == 10 <= s@.len(),
            forall|j: int| 0 <= j < i ==> is_upper(#[trigger] s@[j]) || is_digit(s@[j]),
        decreases 10 - i,
    {
        let c: char = s[i];
        if !(('A' <= c && c <= 'Z') || ('0' <= c && c <= '9')) {
            proof {
                assert(s@.take(10)[i as int] == c);
            }
            return false;
        }
        i += 1;
    }
    true
}

/// The bundle part of an application identifier.
pub fn application_identifier_bundle_id(value: &str) -> (r: Option<String>)
    ensures
        match r {
            Some(b) => bundle_of(value@) == Some(b@),
            None => bundle_of(value@) is None,
        },
{
    let s: Vec<char> = chars_of(value);
    let dot: usize = first_dot(&s);
    let n: usize = s.len();
    if dot < n && dot + 1 < n && team_chars(&s, dot) {
        let r: String = string_of(&s, dot + 1, n);
        proof {
            assert(s@.subrange(dot + 1, n as int) =~= s@.skip(dot + 1));
        }
        Some(r)
    } else {
        None
    }
}

/// The team part of an application identifier.
pub fn application_identifier_team(value: &str) -> (r: Option<String>)
    ensures
        match r {
            Some(t) => team_of(value@) == Some(t@),
            None => team_of(value@) is None,
        },
{
    let s: Vec<char> = chars_of(value);
    let dot: usize = first_dot(&s);
    if dot < s.len() && team_chars(&s, dot) {
        let r: String = string_of(&s, 0, dot);
        proof {
            assert(s@.subrange(0, dot as int) =~= s@.take(dot as int));
        }
        Some(r)
    } else {
        None
    }
}

/// Whether a profile for `granted` covers the bundle `requested`.
pub fn application_identifier_grants(granted: &str, requested: &str) -> (r: bool)
    ensures
        r == identifier_covers(granted@, requested@),
{
    let bundle: String = match application_identifier_bundle_id(granted) {
        Some(b) => b,
        None => granted.to_string(),
    };
    if same_text(bundle.as_str(), requested) || same_text(bundle.as_str(), "*") {
        return true;
    }
    let b: Vec<char> = chars_of(bundle.as_str());
    let q: Vec<char> = chars_of(requested);
    let n: usize = b.len();
    if n < 2 || b[n - 2] != '.' || b[n - 1] != '*' {
        proof {
            reveal_strlit(".*");
            if is_suffix(".*"@, b@) {
                assert(b@.subrange(n - 2, n as int)[0] == '.');
                assert(b@.subrange(n - 2, n as int)[1] == '*');
            }
        }
        return false;
    }
    proof {
        reveal_strlit(".*");
        assert(b@.subrange(n - 2, n as int) =~= ".*"@);
    }
    let stem: String = string_of(&b, 0, n - 1);
    proof {
        assert(b@.subrange(0, n - 1) =~= b@.take(n - 1));
    }
    chars_at(&q, &chars_of(stem.as_str()), 0)
}

// ---------------------------------------------------------------------------
// Entitlements
// ---------------------------------------------------------------------------

/// Equality of real numbers by their shortest decimal texts: no number equals `NaN`, and the two
/// zeros are equal.
pub open spec fn same_real(a: Seq<char>, b: Seq<char>) -> bool {
    ||| a == b && a != "NaN"@
    ||| (a == "0"@ || a == "-0"@) && (b == "0"@ || b == "-0"@)
}

/// The item at index `i`, where there is one.
pub open spec fn item(s: Seq<PlistModel>, i: int) -> Option<PlistModel> {
    if 0 <= i < s.len() {
        Some(s[i])
    } else {
        None
    }
}

/// The entitlement value `granted` covers `requested`: a text as a pattern, an array or a dictionary
/// by covering each of what is requested, any other value by being equal.
pub open spec fn covers(granted: PlistModel, requested: PlistModel) -> bool
    decreases requested,
{
    match (granted, requested) {
        (PlistModel::Text(g), PlistModel::Text(r)) => glob(g, r),
        (PlistModel::Array(g), PlistModel::Array(r)) => forall|i: int|
            #![trigger item(r, i)]
            item(r, i) is Some ==> exists|j: int|
                #![trigger item(g, j)]
                item(g, j) is Some && covers(item(g, j)->0, item(r, i)->0),
        (PlistModel::Dict(g), PlistModel::Dict(r)) => forall|i: int|
            0 <= i < r.len() ==> match lookup(g, (#[trigger] r[i]).0) {
                Some(v) => covers(v, r[i].1),
                None => false,
            },
        (PlistModel::Real(g), PlistModel::Real(r)) => same_real(g, r),
        _ => granted == requested,
    }
}

/// One of `granted` covers `requested`.
pub open spec fn one_covers(granted: Seq<PlistModel>, requested: PlistModel) -> bool {
    exists|j: int|
        #![trigger item(granted, j)]
        item(granted, j) is Some && covers(item(granted, j)->0, requested)
}

fn same_bytes(a: &[u8], b: &[u8]) -> (r: bool)
    ensures
        r == (a@ == b@),
{
    if a.len() != b.len() {
        return false;
    }
    let mut i: usize = 0;
    while i < a.len()
        invariant
            a@.len() == b@.len(),
            i <= a@.len(),
            forall|j: int| 0 <= j < i ==> a@[j] == b@[j],
        decreases a@.len() - i,
    {
        if a[i] != b[i] {
            return false;
        }
        i += 1;
    }
    proof {
        assert(a@ =~= b@);
    }
    true
}

/// Whether one of `granted` covers `requested`.
fn any_grants(granted: &Vec<PlistValue>, requested: &PlistValue) -> (r: bool)
    ensures
        r == one_covers(list_model(granted@), requested@),
    decreases requested, granted@.len() + 1,
{
    let mut j: usize = 0;
    while j < granted.len()
        invariant
            j <= granted@.len(),
            forall|k: int|
                0 <= k < j ==> !covers((#[trigger] item(list_model(granted@), k))->0, requested@),
        decreases granted@.len() - j,
    {
        if value_grants(&granted[j], requested) {
            proof {
                assert(item(list_model(granted@), j as int) == Some(granted@[j as int]@));
            }
            return true;
        }
        j += 1;
    }
    false
}

/// Whether the entitlement value `granted` covers `requested`.
pub fn value_grants(granted: &PlistValue, requested: &PlistValue) -> (r: bool)
    ensures
        r == covers(granted@, requested@),
    decreases requested, 0nat,
{
    match (granted, requested) {
        (PlistValue::Text(g), PlistValue::Text(q)) => wildcard_matches(g.as_str(), q.as_str()),
        (PlistValue::Array(g), PlistValue::Array(q)) => every_granted(g, q),
        (PlistValue::Dict(g), PlistValue::Dict(q)) => entries_granted(g, q),
        (PlistValue::Real(g), PlistValue::Real(q)) => {
            (same_text(g.as_str(), q.as_str()) && !same_text(g.as_str(), "NaN")) || ((same_text(
                g.as_str(),
                "0",
            ) || same_text(g.as_str(), "-0")) && (same_text(q.as_str(), "0") || same_text(
                q.as_str(),
                "-0",
            )))
        },
        (PlistValue::Boolean(g), PlistValue::Boolean(q)) => *g == *q,
        (PlistValue::Data(g), PlistValue::Data(q)) => same_bytes(g.as_slice(), q.as_slice()),
        (PlistValue::Time(g), PlistValue::Time(q)) => *g == *q,
        (PlistValue::Signed(g), PlistValue::Signed(q)) => *g == *q,
        (PlistValue::Unsigned(g), PlistValue::Unsigned(q)) => *g == *q,
        (PlistValue::Signed(g), PlistValue::Unsigned(q)) => *g >= 0 && *g as u64 == *q,
        (PlistValue::Unsigned(g), PlistValue::Signed(q)) => *q >= 0 && *g == *q as u64,
        (PlistValue::Uid(g), PlistValue::Uid(q)) => *g == *q,
        _ => false,
    }
}

fn every_granted(granted: &Vec<PlistValue>, requested: &Vec<PlistValue>) -> (r: bool)
    ensures
        r == covers(
            PlistModel::Array(list_model(granted@)),
            PlistModel::Array(list_model(requested@)),
        ),
    decreases requested,
{
    let ghost g = list_model(granted@);
    let ghost q = list_model(requested@);
    let mut i: usize = 0;
    while i < requested.len()
        invariant
            g == list_model(granted@),
            q == list_model(requested@),
            i <= requested@.len(),
            forall|k: int|
                0 <= k < i ==> one_covers(g, (#[trigger] item(q, k))->0),
        decreases requested@.len() - i,
    {
        if !any_grants(granted, &requested[i]) {
            proof {
                assert(q[i as int] == requested@[i as int]@);
                assert(q.len() == requested@.len());
                assert(item(q, i as int) == Some(q[i as int]));
            }
            return false;
        }
        proof {
            assert(q[i as int] == requested@[i as int]@);
        }
        i += 1;
    }
    proof {
        assert forall|k: int| #![trigger item(q, k)] item(q, k) is Some implies (exists|j: int|
            #![trigger item(g, j)]
            item(g, j) is Some && covers(item(g, j)->0, item(q, k)->0)) by {
            assert(one_covers(g, item(q, k)->0));
        }
        let a = PlistModel::Array(g);
        let b = PlistModel::Array(q);
        assert(a->Array_0 == g && b->Array_0 == q);
        assert(forall|k: int|
            #![trigger item(b->Array_0, k)]
            item(b->Array_0, k) is Some ==> (exists|j: int|
                #![trigger item(a->Array_0, j)]
                item(a->Array_0, j) is Some && covers(
                    item(a->Array_0, j)->0,
                    item(b->Array_0, k)->0,
                )));
        assert(covers(a, b));
    }
    true
}

fn entries_granted(granted: &PlistDictionary, requested: &PlistDictionary) -> (r: bool)
    ensures
        r == covers(PlistModel::Dict(granted@), PlistModel::Dict(requested@)),
    decreases requested,
{
    let mut i: usize = 0;
    while i < requested.entries.len()
        invariant
            i <= requested.entries@.len(),
            forall|k: int|
                0 <= k < i ==> match lookup(granted@, (#[trigger] requested@[k]).0) {
                    Some(v) => covers(v, requested@[k].1),
                    None => false,
                },
        decreases requested.entries@.len() - i,
    {
        let entry: &(String, PlistValue) = &requested.entries[i];
        proof {
            assert(requested@[i as int] == (entry.0@, entry.1@));
        }
        match granted.get(entry.0.as_str()) {
            Some(v) => {
                if !value_grants(v, &entry.1) {
                    return false;
                }
            },
            None => {
                return false;
            },
        }
        i += 1;
    }
    true
}

// ---------------------------------------------------------------------------
// Profiles
// ---------------------------------------------------------------------------

/// A provisioning profile.
pub struct MobileProvision {
    pub data: Vec<u8>,
    pub entitlements: PlistDictionary,
    pub expiration_date: Instant,
    pub platforms: Vec<String>,
    pub provisioned_devices: Vec<String>,
    pub developer_certificates: Vec<Vec<u8>>,
}

/// The bytes of a text, where all of them are ASCII.
pub open spec fn ascii_bytes(s: Seq<char>) -> Seq<u8> {
    s.map_values(|c: char| c as u8)
}

/// `marker` stands in `data` at index `i`.
pub open spec fn bytes_at(data: Seq<u8>, marker: Seq<u8>, i: int) -> bool {
    0 <= i && i + marker.len() <= data.len() && data.subrange(i, i + marker.len()) == marker
}

/// `i` is the first place of the opening tag.
pub open spec fn plist_start(data: Seq<u8>, i: int) -> bool {
    let tag = ascii_bytes("<plist"@);
    bytes_at(data, tag, i) && forall|j: int| 0 <= j < i ==> !bytes_at(data, tag, j)
}

/// `i` is just behind the last closing tag.
pub open spec fn plist_end(data: Seq<u8>, i: int) -> bool {
    let tag = ascii_bytes("</plist>"@);
    bytes_at(data, tag, i - 8) && forall|j: int| i - 8 < j ==> !bytes_at(data, tag, j)
}

/// The texts that a value holds: itself, or those in an array.
pub open spec fn texts_in(value: Option<PlistModel>) -> Seq<Seq<char>> {
    match value {
        Some(PlistModel::Text(s)) => seq![s],
        Some(PlistModel::Array(items)) => texts_among(items),
        _ => seq![],
    }
}

/// The texts among `items`, in order.
pub open spec fn texts_among(items: Seq<PlistModel>) -> Seq<Seq<char>>
    decreases items.len(),
{
    if items.len() == 0 {
        seq![]
    } else {
        let head = texts_among(items.drop_last());
        match items.last() {
            PlistModel::Text(s) => head.push(s),
            _ => head,
        }
    }
}

/// The byte strings among `items`, in order.
pub open spec fn data_among(items: Seq<PlistModel>) -> Seq<Seq<u8>>
    decreases items.len(),
{
    if items.len() == 0 {
        seq![]
    } else {
        let head = data_among(items.drop_last());
        match items.last() {
            PlistModel::Data(d) => head.push(d),
            _ => head,
        }
    }
}

/// The byte strings in an array value.
pub open spec fn data_in(value: Option<PlistModel>) -> Seq<Seq<u8>> {
    match value {
        Some(PlistModel::Array(items)) => data_among(items),
        _ => seq![],
    }
}

/// The contents of a list of byte strings.
pub open spec fn byte_lists(v: Seq<Vec<u8>>) -> Seq<Seq<u8>> {
    v.map_values(|d: Vec<u8>| d@)
}

/// What a profile says, apart from its raw bytes.
pub ghost struct ProfileModel {
    pub entitlements: Seq<(Seq<char>, PlistModel)>,
    pub expiration: Instant,
    pub platforms: Seq<Seq<char>>,
    pub devices: Seq<Seq<char>>,
    pub certificates: Seq<Seq<u8>>,
}

impl View for MobileProvision {
    type V = ProfileModel;

    open spec fn view(&self) -> ProfileModel {
        ProfileModel {
            entitlements: self.entitlements@,
            expiration: self.expiration_date,
            platforms: texts(self.platforms@),
            devices: texts(self.provisioned_devices@),
            certificates: byte_lists(self.developer_certificates@),
        }
    }
}

fn copied_texts(v: &Vec<String>) -> (r: Vec<String>)
    ensures
        texts(r@) == texts(v@),
{
    let mut r: Vec<String> = Vec::new();
    let mut i: usize = 0;
    while i < v.len()
        invariant
            i <= v@.len(),
            r@.len() == i,
            forall|j: int| 0 <= j < i ==> (#[trigger] r@[j])@ == v@[j]@,
        decreases v@.len() - i,
    {
        r.push(v[i].clone());
        i += 1;
    }
    proof {
        assert(texts(r@) =~= texts(v@));
    }
    r
}

fn copied_data(v: &Vec<Vec<u8>>) -> (r: Vec<Vec<u8>>)
    ensures
        byte_lists(r@) == byte_lists(v@),
{
    let mut r: Vec<Vec<u8>> = Vec::new();
    let mut i: usize = 0;
    while i < v.len()
        invariant
            i <= v@.len(),
            r@.len() == i,
            forall|j: int| 0 <= j < i ==> (#[trigger] r@[j])@ == v@[j]@,
        decreases v@.len() - i,
    {
        let copy: Vec<u8> = v[i].clone();
        proof {
            assert(copy@ =~= v@[i as int]@);
        }
        r.push(copy);
        i += 1;
    }
    proof {
        assert(byte_lists(r@) =~= byte_lists(v@));
    }
    r
}

impl Clone for MobileProvision {
    fn clone(&self) -> (r: MobileProvision)
        ensures
            r@ == self@,
            r.data@ == self.data@,
    {
        let data: Vec<u8> = self.data.clone();
        proof {
            assert(data@ =~= self.data@);
        }
        MobileProvision {
            data,
            entitlements: self.entitlements.duplicate(),
            expiration_date: self.expiration_date,
            platforms: copied_texts(&self.platforms),
            provisioned_devices: copied_texts(&self.provisioned_devices),
            developer_certificates: copied_data(&self.developer_certificates),
        }
    }
}

/// What the property list of a profile says; none where it lacks entitlements or an expiration date.
pub open spec fn profile_in(plist: PlistModel) -> Option<ProfileModel> {
    match (plist.field("Entitlements"@), plist.field("ExpirationDate"@)) {
        (Some(PlistModel::Dict(entitlements)), Some(PlistModel::Time(expiration))) => Some(
            ProfileModel {
                entitlements,
                expiration,
                platforms: texts_in(plist.field("Platform"@)),
                devices: texts_in(plist.field("ProvisionedDevices"@)),
                certificates: data_in(plist.field("DeveloperCertificates"@)),
            },
        ),
        _ => None,
    }
}

fn tag_at(data: &[u8], tag: &Vec<u8>, at: usize) -> (r: bool)
    ensures
        r == bytes_at(data@, tag@, at as int),
{
    let n: usize = data.len();
    if at > n || tag.len() > n - at {
        return false;
    }
    let mut i: usize = 0;
    while i < tag.len()
        invariant
            n == data@.len(),
            i <= tag@.len(),
            at + tag@.len() <= n,
            forall|j: int| 0 <= j < i ==> data@[at + j] == tag@[j],
        decreases tag@.len() - i,
    {
        if data[at + i] != tag[i] {
            proof {
                assert(data@.subrange(at as int, at + tag@.len())[i as int] != tag@[i as int]);
            }
            return false;
        }
        i += 1;
    }
    proof {
        assert(data@.subrange(at as int, at + tag@.len()) =~= tag@);
    }
    true
}

fn ascii_tag(s: &str) -> (r: Vec<u8>)
    requires
        forall|i: int| 0 <= i < s@.len() ==> (#[trigger] s@[i] as u32) < 128,
    ensures
        r@ == ascii_bytes(s@),
{
    let chars: Vec<char> = chars_of(s);
    let mut r: Vec<u8> = Vec::new();
    let mut i: usize = 0;
    while i < chars.len()
        invariant
            chars@ == s@,
            i <= chars@.len(),
            r@ == ascii_bytes(s@.take(i as int)),
        decreases chars@.len() - i,
    {
        r.push(chars[i] as u8);
        i += 1;
        proof {
            assert(r@ =~= ascii_bytes(s@.take(i as int)));
        }
    }
    proof {
        assert(s@.take(s@.len() as int) =~= s@);
    }
    r
}

fn find_plist_start(data: &[u8]) -> (r: Option<usize>)
    ensures
        match r {
            Some(i) => plist_start(data@, i as int),
            None => forall|i: int| !plist_start(data@, i),
        },
{
    proof {
        reveal_strlit("<plist");
    }
    let tag: Vec<u8> = ascii_tag("<plist");
    let n: usize = data.len();
    let mut i: usize = 0;
    while i < n
        invariant
            n == data@.len(),
            i <= n,
            tag@ == ascii_bytes("<plist"@),
            tag@.len() > 0,
            forall|j: int| 0 <= j < i ==> !bytes_at(data@, tag@, j),
        decreases n - i,
    {
        if tag_at(data, &tag, i) {
            return Some(i);
        }
        i += 1;
    }
    proof {
        assert forall|j: int| !plist_start(data@, j) by {
            if bytes_at(data@, tag@, j) {
                assert(0 <= j < n);
            }
        }
    }
    None
}

fn find_plist_end(data: &[u8]) -> (r: Option<usize>)
    ensures
        match r {
            Some(i) => plist_end(data@, i as int) && i <= data@.len(),
            None => forall|i: int| !plist_end(data@, i),
        },
{
    proof {
        reveal_strlit("</plist>");
    }
    let tag: Vec<u8> = ascii_tag("</plist>");
    let n: usize = data.len();
    let mut i: usize = n;
    while i > 0
        invariant
            i <= n == data@.len(),
            tag@ == ascii_bytes("</plist>"@),
            tag@.len() == 8,
            forall|j: int| i <= j ==> !bytes_at(data@, tag@, j),
        decreases i,
    {
        i -= 1;
        if tag_at(data, &tag, i) {
            return Some(i + 8);
        }
    }
    proof {
        assert forall|j: int| !plist_end(data@, j) by {
            if bytes_at(data@, tag@, j - 8) {
                assert(0 <= j - 8);
            }
        }
    }
    None
}

/// The texts that a value holds: itself, or those in an array.
pub fn string_values(value: Option<&PlistValue>) -> (r: Vec<String>)
    ensures
        texts(r@) == texts_in(
            match value {
                Some(v) => Some(v@),
                None => None,
            },
        ),
{
    let mut r: Vec<String> = Vec::new();
    match value {
        Some(PlistValue::Text(s)) => {
            r.push(s.clone());
            proof {
                assert(texts(r@) =~= seq![s@]);
            }
        },
        Some(PlistValue::Array(items)) => {
            let ghost model = list_model(items@);
            let mut i: usize = 0;
            proof {
                assert(texts(r@) =~= texts_among(model.take(0)));
            }
            while i < items.len()
                invariant
                    model == list_model(items@),
                    i <= items@.len(),
                    texts(r@) == texts_among(model.take(i as int)),
                decreases items@.len() - i,
            {
                let ghost before = r@;
                proof {
                    assert(model.take(i + 1).drop_last() =~= model.take(i as int));
                    assert(model.take(i + 1).last() == items@[i as int]@);
                }
                match items[i].as_text() {
                    Some(s) => {
                        r.push(s.clone());
                        proof {
                            assert(texts(r@) =~= texts(before).push(s@));
                        }
                    },
                    None => {},
                }
                i += 1;
            }
            proof {
                assert(model.take(model.len() as int) =~= model);
            }
        },
        _ => {
            proof {
                assert(texts(r@) =~= seq![]);
            }
        },
    }
    r
}

/// The byte strings in an array value.
pub fn data_values(value: Option<&PlistValue>) -> (r: Vec<Vec<u8>>)
    ensures
        byte_lists(r@) == data_in(
            match value {
                Some(v) => Some(v@),
                None => None,
            },
        ),
{
    let mut r: Vec<Vec<u8>> = Vec::new();
    match value {
        Some(PlistValue::Array(items)) => {
            let ghost model = list_model(items@);
            let mut i: usize = 0;
            proof {
                assert(byte_lists(r@) =~= data_among(model.take(0)));
            }
            while i < items.len()
                invariant
                    model == list_model(items@),
                    i <= items@.len(),
                    byte_lists(r@) == data_among(model.take(i as int)),
                decreases items@.len() - i,
            {
                let ghost before = r@;
                proof {
                    assert(model.take(i + 1).drop_last() =~= model.take(i as int));
                    assert(model.take(i + 1).last() == items@[i as int]@);
                }
                match items[i].as_data() {
                    Some(d) => {
                        let copy: Vec<u8> = d.clone();
                        proof {
                            assert(copy@ =~= d@);
                        }
                        r.push(copy);
                        proof {
                            assert(byte_lists(r@) =~= byte_lists(before).push(d@));
                        }
                    },
                    None => {},
                }
                i += 1;
            }
            proof {
                assert(model.take(model.len() as int) =~= model);
            }
        },
        _ => {
            proof {
                assert(byte_lists(r@) =~= seq![]);
            }
        },
    }
    r
}

/// The part of a profile's bytes that is its property list: none where a tag is missing.
pub open spec fn plist_part(data: Seq<u8>) -> Option<Seq<u8>> {
    if (exists|i: int| plist_start(data, i)) && (exists|i: int| plist_end(data, i)) {
        let start = choose|i: int| plist_start(data, i);
        let end = choose|i: int| plist_end(data, i);
        Some(data.subrange(start, end))
    } else {
        None
    }
}

/// The opening tag, where there is one, does not lie behind the last closing tag.
pub open spec fn tags_in_order(data: Seq<u8>) -> bool {
    forall|i: int, j: int| plist_start(data, i) && plist_end(data, j) ==> i <= j
}

impl MobileProvision {
    /// The profile that a property list holds, with its raw bytes.
    pub fn from_plist_value(data: Vec<u8>, plist: &PlistValue) -> (r: Result<
        MobileProvision,
        CoreError,
    >)
        ensures
            match r {
                Ok(p) => p.data == data && profile_in(plist@) == Some(p@),
                Err(e) => e is ProvisioningEntitlementsUnknown && profile_in(plist@) is None,
            },
    {
        let entitlements: PlistDictionary = match plist.field("Entitlements") {
            Some(v) => match v.as_dictionary() {
                Some(d) => d.duplicate(),
                None => {
                    return Err(CoreError::ProvisioningEntitlementsUnknown);
                },
            },
            None => {
                return Err(CoreError::ProvisioningEntitlementsUnknown);
            },
        };
        let expiration_date: Instant = match plist.field("ExpirationDate") {
            Some(v) => match v.as_date() {
                Some(d) => d,
                None => {
                    return Err(CoreError::ProvisioningEntitlementsUnknown);
                },
            },
            None => {
                return Err(CoreError::ProvisioningEntitlementsUnknown);
            },
        };
        Ok(
            MobileProvision {
                data,
                entitlements,
                expiration_date,
                platforms: string_values(plist.field("Platform")),
                provisioned_devices: string_values(plist.field("ProvisionedDevices")),
                developer_certificates: data_values(plist.field("DeveloperCertificates")),
            },
        )
    }

    /// Reads a profile from its bytes: the property list between its first opening and its last
    /// closing tag.
    pub fn load_with_bytes(data: Vec<u8>) -> (r: Result<MobileProvision, CoreError>)
        requires
            is_readable(data@),
        ensures
            loaded(data@, r),
    {
        let start: usize = match find_plist_start(data.as_slice()) {
            Some(i) => i,
            None => {
                return Err(CoreError::ProvisioningEntitlementsUnknown);
            },
        };
        let end: usize = match find_plist_end(data.as_slice()) {
            Some(i) => i,
            None => {
                return Err(CoreError::ProvisioningEntitlementsUnknown);
            },
        };
        proof {
            lemma_plist_part(data@, start as int, end as int);
        }
        match read_xml_plist(vstd::slice::slice_subrange(data.as_slice(), start, end)) {
            Ok(v) => MobileProvision::from_plist_value(data, &v),
            Err(e) => Err(CoreError::Plist(e)),
        }
    }
}

/// `merge` makes `merged` of the profile's own entitlements, the binary's, the profile's team and the
/// application identifier `id`.
pub open spec fn merges_to<
    F: Fn(PlistDictionary, PlistDictionary, Option<String>, String) -> PlistDictionary,
>(
    merge: F,
    own: Seq<(Seq<char>, PlistModel)>,
    binary: Seq<(Seq<char>, PlistModel)>,
    id: Seq<char>,
    merged: Seq<(Seq<char>, PlistModel)>,
) -> bool {
    exists|o: PlistDictionary, b: PlistDictionary, team: Option<String>, i: String, m: PlistDictionary|
        {
            &&& #[trigger] call_ensures(merge, (o, b, team, i), m)
            &&& o@ == own
            &&& b@ == binary
            &&& crate::text::opt_text(team) == text_entry(
                own,
                "com.apple.developer.team-identifier"@,
            )
            &&& i@ == id
            &&& m@ == merged
        }
}

/// The bytes of a profile can be read: its tags are in order, and so are the dates between them.
pub open spec fn is_readable(data: Seq<u8>) -> bool {
    tags_in_order(data) && (plist_part(data) matches Some(part) ==> xml_dates_fit(part, false))
}

/// What comes of reading a profile.
pub open spec fn loaded(data: Seq<u8>, r: Result<MobileProvision, CoreError>) -> bool {
    match (r, plist_part(data)) {
        (Ok(p), Some(part)) => xml_plist(part) matches Some(v) && profile_in(v) == Some(p@)
            && p.data@ == data,
        (Err(e), None) => e is ProvisioningEntitlementsUnknown,
        (Err(e), Some(part)) => match xml_plist(part) {
            Some(v) => e is ProvisioningEntitlementsUnknown && profile_in(v) is None,
            None => e is Plist,
        },
        (Ok(_), None) => false,
    }
}

/// Whether the bytes of a profile can be read.
pub fn profile_is_readable(data: &[u8]) -> (r: bool)
    ensures
        r == is_readable(data@),
{
    if !tags_are_in_order(data) {
        return false;
    }
    match (find_plist_start(data), find_plist_end(data)) {
        (Some(start), Some(end)) => {
            proof {
                lemma_plist_part(data@, start as int, end as int);
                assert(start <= end);
            }
            xml_dates_are_fit(vstd::slice::slice_subrange(data, start, end), false)
        },
        _ => {
            proof {
                assert(plist_part(data@) is None);
            }
            true
        },
    }
}

impl MobileProvision {
    /// Reads a profile from its bytes; none where they cannot be read.
    pub fn checked_load_with_bytes(data: Vec<u8>) -> (r: Option<Result<MobileProvision, CoreError>>)
        ensures
            match r {
                Some(out) => is_readable(data@) && loaded(data@, out),
                None => !is_readable(data@),
            },
    {
        if profile_is_readable(data.as_slice()) {
            Some(MobileProvision::load_with_bytes(data))
        } else {
            None
        }
    }
}

/// Whether the opening tag, where there is one, does not lie behind the last closing tag.
pub fn tags_are_in_order(data: &[u8]) -> (r: bool)
    ensures
        r == tags_in_order(data@),
{
    let start: Option<usize> = find_plist_start(data);
    let end: Option<usize> = find_plist_end(data);
    let ordered: bool = match (start, end) {
        (Some(i), Some(j)) => i <= j,
        _ => true,
    };
    proof {
        assert forall|i: int, j: int| plist_start(data@, i) && plist_end(data@, j) implies i
            == start->0 && j == end->0 by {
            lemma_tags_are_unique(data@, start->0 as int, end->0 as int, i, j);
        }
        if ordered {
            assert(tags_in_order(data@));
        } else {
            assert(plist_start(data@, start->0 as int) && plist_end(data@, end->0 as int));
            assert(!tags_in_order(data@));
        }
    }
    ordered
}

/// There is one first opening tag and one last closing tag.
proof fn lemma_tags_are_unique(data: Seq<u8>, start: int, end: int, s: int, e: int)
    requires
        plist_start(data, start),
        plist_end(data, end),
        plist_start(data, s),
        plist_end(data, e),
    ensures
        s == start,
        e == end,
{
    if s < start {
        assert(bytes_at(data, ascii_bytes("<plist"@), s));
    } else if start < s {
        assert(bytes_at(data, ascii_bytes("<plist"@), start));
    }
    if e < end {
        assert(bytes_at(data, ascii_bytes("</plist>"@), end - 8));
    } else if end < e {
        assert(bytes_at(data, ascii_bytes("</plist>"@), e - 8));
    }
}

proof fn lemma_plist_part(data: Seq<u8>, start: int, end: int)
    requires
        plist_start(data, start),
        plist_end(data, end),
    ensures
        plist_part(data) == Some(data.subrange(start, end)),
{
    let s = choose|i: int| plist_start(data, i);
    let e = choose|i: int| plist_end(data, i);
    lemma_tags_are_unique(data, start, end, s, e);
}

// ---------------------------------------------------------------------------
// Validation
// ---------------------------------------------------------------------------

/// Why a profile is refused.
pub ghost enum Refusal {
    Invalid(Seq<char>),
    UnreadableCertificate,
}

/// One of the profile's platforms is `platform`.
pub open spec fn targets(platforms: Seq<Seq<char>>, platform: DeveloperPlatform) -> bool {
    exists|i: int| 0 <= i < platforms.len() && names_platform(platform, #[trigger] platforms[i])
}

/// The profile lists the device, whatever the case of the letters in its identifier.
pub open spec fn lists_device(devices: Seq<Seq<char>>, udid: Seq<char>) -> bool {
    exists|i: int| 0 <= i < devices.len() && same_ignoring_case(#[trigger] devices[i], udid)
}

/// The two entitlements that name the app and its team, which are compared on their own.
pub open spec fn identity_key(key: Seq<char>) -> bool {
    key == "application-identifier"@ || key == "com.apple.developer.team-identifier"@
}

/// The entry of the requested entitlements is granted by the profile's.
pub open spec fn entry_granted(
    granted: Seq<(Seq<char>, PlistModel)>,
    entry: (Seq<char>, PlistModel),
) -> bool {
    identity_key(entry.0) || match lookup(granted, entry.0) {
        Some(v) => covers(v, entry.1),
        None => false,
    }
}

/// The key of the first entry at or after `from` that is not granted.
pub open spec fn first_ungranted(
    granted: Seq<(Seq<char>, PlistModel)>,
    requested: Seq<(Seq<char>, PlistModel)>,
    from: int,
) -> Option<Seq<char>>
    decreases requested.len() - from,
{
    if from >= requested.len() {
        None
    } else if entry_granted(granted, requested[from]) {
        first_ungranted(granted, requested, from + 1)
    } else {
        Some(requested[from].0)
    }
}

/// Why entitlements are refused, if they are.
pub open spec fn entitlement_refusal(
    granted: Seq<(Seq<char>, PlistModel)>,
    requested: Seq<(Seq<char>, PlistModel)>,
) -> Option<Refusal> {
    match first_ungranted(granted, requested, 0) {
        Some(key) => Some(
            Refusal::Invalid("profile does not grant entitlement "@ + debug_quoted(key)),
        ),
        None => None,
    }
}

/// Why the signing certificate is refused, if it is.
pub open spec fn certificate_refusal(
    certificates: Seq<Seq<u8>>,
    certificate: Option<Seq<u8>>,
    now: Instant,
) -> Option<Refusal> {
    match certificate {
        None => Some(Refusal::Invalid("active signing certificate is unavailable"@)),
        Some(der) => if !certificates.contains(der) {
            Some(
                Refusal::Invalid("profile does not contain the active signing certificate"@),
            )
        } else {
            match certificate_window(der) {
                None => Some(Refusal::UnreadableCertificate),
                Some(w) => if w.0 <= now.at() && now.at() <= w.1 {
                    None
                } else {
                    Some(
                        Refusal::Invalid(
                            "active signing certificate is expired or not yet valid"@,
                        ),
                    )
                },
            }
        },
    }
}

/// Why the profile does not fit the app and the device, if it does not.
pub open spec fn target_refusal(
    profile: ProfileModel,
    platform: DeveloperPlatform,
    bundle: Seq<char>,
    udid: Option<Seq<char>>,
    now: Instant,
) -> Option<Refusal> {
    if !targets(profile.platforms, platform) {
        Some(Refusal::Invalid("profile does not target "@ + platform_name(platform)))
    } else if now.at() >= profile.expiration.at() {
        Some(Refusal::Invalid("profile is expired"@))
    } else {
        match text_entry(profile.entitlements, "application-identifier"@) {
            None => Some(Refusal::Invalid("profile has no application identifier"@)),
            Some(app) => if !identifier_covers(app, bundle) {
                Some(
                    Refusal::Invalid(
                        "application identifier "@ + debug_quoted(app) + " does not match "@
                            + debug_quoted(bundle),
                    ),
                )
            } else {
                match udid {
                    Some(u) if !device_udid(u) || !lists_device(profile.devices, u) => Some(
                        Refusal::Invalid("profile does not contain selected Apple TV UDID "@ + u),
                    ),
                    _ => None,
                }
            },
        }
    }
}

/// Why the profile is refused for an app, a device, a certificate and entitlements: the first of
/// the reasons, in the order in which they are looked for.
pub open spec fn profile_refusal(
    profile: ProfileModel,
    platform: DeveloperPlatform,
    bundle: Seq<char>,
    udid: Option<Seq<char>>,
    certificate: Option<Seq<u8>>,
    requested: Option<Seq<(Seq<char>, PlistModel)>>,
    now: Instant,
) -> Option<Refusal> {
    match target_refusal(profile, platform, bundle, udid, now) {
        Some(refusal) => Some(refusal),
        None => match certificate_refusal(profile.certificates, certificate, now) {
            Some(refusal) => Some(refusal),
            None => match requested {
                Some(entries) => entitlement_refusal(profile.entitlements, entries),
                None => None,
            },
        },
    }
}

/// The team that entitlements are for: their own entry, else the prefix of the application
/// identifier.
pub open spec fn team_in(
    entitlements: Seq<(Seq<char>, PlistModel)>,
    application_identifier: Seq<char>,
) -> Option<Seq<char>> {
    match text_entry(entitlements, "com.apple.developer.team-identifier"@) {
        Some(team) => Some(team),
        None => team_of(application_identifier),
    }
}

/// Why the identity in an executable's entitlements is refused, if it is.
pub open spec fn identity_refusal(
    profile: Seq<(Seq<char>, PlistModel)>,
    bundle: Seq<char>,
    signed: Seq<(Seq<char>, PlistModel)>,
) -> Option<Refusal> {
    let profile_app = text_entry(profile, "application-identifier"@);
    let signed_app = text_entry(signed, "application-identifier"@);
    if profile_app is None {
        Some(Refusal::Invalid("profile has no application identifier"@))
    } else if signed_app is None {
        Some(Refusal::Invalid("signed executable has no application identifier"@))
    } else if bundle_of(signed_app->0) is None {
        Some(Refusal::Invalid("signed executable has an invalid application identifier"@))
    } else if bundle_of(signed_app->0)->0 != bundle || !identifier_covers(
        profile_app->0,
        bundle_of(signed_app->0)->0,
    ) {
        Some(
            Refusal::Invalid(
                "signed executable application identifier "@ + debug_quoted(signed_app->0)
                    + " does not match "@ + debug_quoted(bundle),
            ),
        )
    } else if team_in(profile, profile_app->0) is None {
        Some(Refusal::Invalid("profile has no team identifier"@))
    } else if team_in(signed, signed_app->0) is None {
        Some(Refusal::Invalid("signed executable has no team identifier"@))
    } else {
        let team = team_in(profile, profile_app->0)->0;
        if team_in(signed, signed_app->0)->0 != team || (team_of(profile_app->0) matches Some(t)
            && t != team) || (team_of(signed_app->0) matches Some(t) && t != team) {
            Some(
                Refusal::Invalid(
                    "signed executable team identifier does not match the provisioning profile"@,
                ),
            )
        } else {
            None
        }
    }
}

/// Why the profile is refused for the entitlements that an executable was signed with.
pub open spec fn final_refusal(
    profile: ProfileModel,
    platform: DeveloperPlatform,
    bundle: Seq<char>,
    udid: Option<Seq<char>>,
    certificate: Option<Seq<u8>>,
    signed: Seq<(Seq<char>, PlistModel)>,
    now: Instant,
) -> Option<Refusal> {
    match profile_refusal(profile, platform, bundle, udid, certificate, None, now) {
        Some(refusal) => Some(refusal),
        None => match identity_refusal(profile.entitlements, bundle, signed) {
            Some(refusal) => Some(refusal),
            None => entitlement_refusal(profile.entitlements, signed),
        },
    }
}

/// The outcome of a check is `refusal`: success where there is none.
pub open spec fn outcome(r: Result<(), CoreError>, refusal: Option<Refusal>) -> bool {
    match r {
        Ok(_) => refusal is None,
        Err(CoreError::ProvisioningProfileInvalid(message)) => refusal == Some(
            Refusal::Invalid(message@),
        ),
        Err(CoreError::Certificate(_)) => refusal == Some(Refusal::UnreadableCertificate),
        Err(_) => false,
    }
}

/// The bytes of an optional byte string.
pub open spec fn opt_bytes(o: Option<&[u8]>) -> Option<Seq<u8>> {
    match o {
        Some(b) => Some(b@),
        None => None,
    }
}

fn invalid(message: &str) -> (r: Result<(), CoreError>)
    ensures
        outcome(r, Some(Refusal::Invalid(message@))),
{
    Err(CoreError::ProvisioningProfileInvalid(message.to_string()))
}

fn text_at(d: &PlistDictionary, key: &str) -> (r: Option<String>)
    ensures
        crate::text::opt_text(r) == text_entry(d@, key@),
{
    match d.get(key) {
        Some(v) => match v.as_text() {
            Some(s) => Some(s.clone()),
            None => None,
        },
        None => None,
    }
}

fn check_entitlements(granted: &PlistDictionary, requested: &PlistDictionary) -> (r: Result<
    (),
    CoreError,
>)
    ensures
        outcome(r, entitlement_refusal(granted@, requested@)),
{
    let mut i: usize = 0;
    while i < requested.entries.len()
        invariant
            i <= requested.entries@.len(),
            first_ungranted(granted@, requested@, 0) == first_ungranted(
                granted@,
                requested@,
                i as int,
            ),
        decreases requested.entries@.len() - i,
    {
        let entry: &(String, PlistValue) = &requested.entries[i];
        proof {
            assert(requested@[i as int] == (entry.0@, entry.1@));
        }
        let key: &str = entry.0.as_str();
        if !same_text(key, "application-identifier") && !same_text(
            key,
            "com.apple.developer.team-identifier",
        ) {
            let covered: bool = match granted.get(key) {
                Some(v) => value_grants(v, &entry.1),
                None => false,
            };
            if !covered {
                return invalid(
                    join2("profile does not grant entitlement ", debug_text(key).as_str()).as_str(),
                );
            }
        }
        i += 1;
    }
    Ok(())
}

impl MobileProvision {
    fn check_target(
        &self,
        platform: DeveloperPlatform,
        bundle_id: &str,
        device_udid: Option<&str>,
        now: Instant,
    ) -> (r: Result<(), CoreError>)
        ensures
            outcome(r, target_refusal(self@, platform, bundle_id@, opt_str(device_udid), now)),
    {
        let mut found: bool = false;
        let mut i: usize = 0;
        while i < self.platforms.len()
            invariant
                i <= self.platforms@.len(),
                found == exists|j: int|
                    0 <= j < i && names_platform(platform, #[trigger] self@.platforms[j]),
            decreases self.platforms@.len() - i,
        {
            if platform.matches_profile_platform(self.platforms[i].as_str()) {
                found = true;
            }
            proof {
                assert(self@.platforms[i as int] == self.platforms@[i as int]@);
            }
            i += 1;
        }
        if !found {
            return invalid(join2("profile does not target ", platform.to_text()).as_str());
        }
        proof {
            assert(targets(self@.platforms, platform));
        }
        if now.not_before(&self.expiration_date) {
            return invalid("profile is expired");
        }
        let app: String = match text_at(&self.entitlements, "application-identifier") {
            Some(s) => s,
            None => {
                return invalid("profile has no application identifier");
            },
        };
        if !application_identifier_grants(app.as_str(), bundle_id) {
            return invalid(
                join4(
                    "application identifier ",
                    debug_text(app.as_str()).as_str(),
                    " does not match ",
                    debug_text(bundle_id).as_str(),
                ).as_str(),
            );
        }
        if let Some(udid) = device_udid {
            if !is_valid_device_udid(udid) || !self.has_device(udid) {
                return invalid(
                    join2("profile does not contain selected Apple TV UDID ", udid).as_str(),
                );
            }
        }
        Ok(())
    }

    fn has_device(&self, udid: &str) -> (r: bool)
        ensures
            r == lists_device(self@.devices, udid@),
    {
        let mut i: usize = 0;
        while i < self.provisioned_devices.len()
            invariant
                i <= self.provisioned_devices@.len(),
                forall|j: int|
                    0 <= j < i ==> !same_ignoring_case(#[trigger] self@.devices[j], udid@),
            decreases self.provisioned_devices@.len() - i,
        {
            proof {
                assert(self@.devices[i as int] == self.provisioned_devices@[i as int]@);
            }
            if eq_ignore_case(self.provisioned_devices[i].as_str(), udid) {
                return true;
            }
            i += 1;
        }
        false
    }

    fn has_certificate(&self, der: &[u8]) -> (r: bool)
        ensures
            r == self@.certificates.contains(der@),
    {
        let mut i: usize = 0;
        while i < self.developer_certificates.len()
            invariant
                i <= self.developer_certificates@.len(),
                forall|j: int| 0 <= j < i ==> self@.certificates[j] != der@,
            decreases self.developer_certificates@.len() - i,
        {
            proof {
                assert(self@.certificates[i as int] == self.developer_certificates@[i as int]@);
            }
            if same_bytes(self.developer_certificates[i].as_slice(), der) {
                return true;
            }
            i += 1;
        }
        false
    }

    fn check_certificate(&self, certificate_der: Option<&[u8]>, now: Instant) -> (r: Result<
        (),
        CoreError,
    >)
        requires
            now.valid(),
        ensures
            outcome(r, certificate_refusal(self@.certificates, opt_bytes(certificate_der), now)),
    {
        match certificate_der {
            None => invalid("active signing certificate is unavailable"),
            Some(der) => {
                if !self.has_certificate(der) {
                    return invalid("profile does not contain the active signing certificate");
                }
                match certificate_valid_at(der, now) {
                    Err(e) => Err(CoreError::Certificate(e)),
                    Ok(true) => Ok(()),
                    Ok(false) => invalid("active signing certificate is expired or not yet valid"),
                }
            },
        }
    }

    /// Checks that the profile lets the app run on the device at the time `now`, signed with the
    /// certificate and with the entitlements.
    pub fn validate_for(
        &self,
        platform: DeveloperPlatform,
        bundle_id: &str,
        device_udid: Option<&str>,
        certificate_der: Option<&[u8]>,
        requested_entitlements: Option<&PlistDictionary>,
        now: Instant,
    ) -> (r: Result<(), CoreError>)
        requires
            now.valid(),
        ensures
            outcome(
                r,
                profile_refusal(
                    self@,
                    platform,
                    bundle_id@,
                    opt_str(device_udid),
                    opt_bytes(certificate_der),
                    match requested_entitlements {
                        Some(d) => Some(d@),
                        None => None,
                    },
                    now,
                ),
            ),
    {
        if let Err(e) = self.check_target(platform, bundle_id, device_udid, now) {
            return Err(e);
        }
        if let Err(e) = self.check_certificate(certificate_der, now) {
            return Err(e);
        }
        match requested_entitlements {
            Some(requested) => check_entitlements(&self.entitlements, requested),
            None => Ok(()),
        }
    }

    /// Checks that the profile lets an executable run that was signed with `entitlements`.
    pub fn validate_final_entitlements(
        &self,
        platform: DeveloperPlatform,
        bundle_id: &str,
        device_udid: Option<&str>,
        certificate_der: Option<&[u8]>,
        entitlements: &PlistDictionary,
        now: Instant,
    ) -> (r: Result<(), CoreError>)
        requires
            now.valid(),
        ensures
            outcome(
                r,
                final_refusal(
                    self@,
                    platform,
                    bundle_id@,
                    opt_str(device_udid),
                    opt_bytes(certificate_der),
                    entitlements@,
                    now,
                ),
            ),
    {
        if let Err(e) = self.validate_for(
            platform,
            bundle_id,
            device_udid,
            certificate_der,
            None,
            now,
        ) {
            return Err(e);
        }
        if let Err(e) = check_identity(&self.entitlements, bundle_id, entitlements) {
            return Err(e);
        }
        check_entitlements(&self.entitlements, entitlements)
    }
}

fn check_identity(
    profile: &PlistDictionary,
    bundle_id: &str,
    entitlements: &PlistDictionary,
) -> (r: Result<(), CoreError>)
    ensures
        outcome(r, identity_refusal(profile@, bundle_id@, entitlements@)),
{
    let profile_app: String = match text_at(profile, "application-identifier") {
        Some(s) => s,
        None => {
            return invalid("profile has no application identifier");
        },
    };
    let app: String = match text_at(entitlements, "application-identifier") {
        Some(s) => s,
        None => {
            return invalid("signed executable has no application identifier");
        },
    };
    let signed_bundle: String = match application_identifier_bundle_id(app.as_str()) {
        Some(s) => s,
        None => {
            return invalid("signed executable has an invalid application identifier");
        },
    };
    if !same_text(signed_bundle.as_str(), bundle_id) || !application_identifier_grants(
        profile_app.as_str(),
        signed_bundle.as_str(),
    ) {
        return invalid(
            join4(
                "signed executable application identifier ",
                debug_text(app.as_str()).as_str(),
                " does not match ",
                debug_text(bundle_id).as_str(),
            ).as_str(),
        );
    }
    let profile_prefix: Option<String> = application_identifier_team(profile_app.as_str());
    let signed_prefix: Option<String> = application_identifier_team(app.as_str());
    let key: &str = "com.apple.developer.team-identifier";
    let profile_team: String = match text_at(profile, key) {
        Some(s) => s,
        None => match &profile_prefix {
            Some(s) => s.clone(),
            None => {
                return invalid("profile has no team identifier");
            },
        },
    };
    let signed_team: String = match text_at(entitlements, key) {
        Some(s) => s,
        None => match &signed_prefix {
            Some(s) => s.clone(),
            None => {
                return invalid("signed executable has no team identifier");
            },
        },
    };
    if !same_text(signed_team.as_str(), profile_team.as_str()) || differs(
        &profile_prefix,
        profile_team.as_str(),
    ) || differs(&signed_prefix, profile_team.as_str()) {
        return invalid(
            "signed executable team identifier does not match the provisioning profile",
        );
    }
    Ok(())
}

fn differs(a: &Option<String>, b: &str) -> (r: bool)
    ensures
        r == (a matches Some(s) && s@ != b@),
{
    match a {
        Some(s) => !same_text(s.as_str(), b),
        None => false,
    }
}

impl MobileProvision {
    pub fn entitlements(&self) -> (r: &PlistDictionary)
        ensures
            r@ == self@.entitlements,
    {
        &self.entitlements
    }

    pub fn expiration_date(&self) -> (r: &Instant)
        ensures
            *r == self@.expiration,
    {
        &self.expiration_date
    }

    /// The entitlements as an XML property list. Their dates must be such that can be written.
    pub fn entitlements_as_bytes(&self) -> (r: Result<Vec<u8>, CoreError>)
        requires
            crate::plist_value::writable(PlistModel::Dict(self@.entitlements)),
        ensures
            match r {
                Ok(bytes) => plist_as_xml(PlistModel::Dict(self@.entitlements)) == Some(bytes@),
                Err(e) => e is Plist && plist_as_xml(PlistModel::Dict(self@.entitlements)) is None,
            },
    {
        match write_xml_plist(&PlistValue::Dict(self.entitlements.duplicate())) {
            Ok(bytes) => Ok(bytes),
            Err(e) => Err(CoreError::Plist(e)),
        }
    }

    /// The application identifier without the first match of `team_id_pattern`, a regular
    /// expression for the team in front of it.
    pub fn bundle_id(&self, team_id_pattern: &str) -> (r: Option<String>)
        ensures
            crate::text::opt_text(r) == match text_entry(
                self@.entitlements,
                "application-identifier"@,
            ) {
                Some(app) => without_match(team_id_pattern@, app),
                None => None,
            },
    {
        match text_at(&self.entitlements, "application-identifier") {
            Some(app) => remove_match(team_id_pattern, app.as_str()),
            None => None,
        }
    }

    /// What the entitlements of a binary are to be merged with: the profile's team and the new
    /// application identifier. A binary without entitlements is refused.
    fn merge_inputs(
        &self,
        binary_entitlements: Option<PlistDictionary>,
        new_application_id: &str,
    ) -> (r: Result<(PlistDictionary, Option<String>, String), CoreError>)
        ensures
            match (binary_entitlements, r) {
                (Some(binary), Ok(inputs)) => inputs.0 == binary && crate::text::opt_text(inputs.1)
                    == text_entry(self@.entitlements, "com.apple.developer.team-identifier"@)
                    && inputs.2@ == new_application_id@,
                (None, Err(e)) => e is ProvisioningEntitlementsUnknown,
                _ => false,
            },
    {
        match binary_entitlements {
            Some(binary) => Ok(
                (
                    binary,
                    text_at(&self.entitlements, "com.apple.developer.team-identifier"),
                    new_application_id.to_string(),
                ),
            ),
            None => Err(CoreError::ProvisioningEntitlementsUnknown),
        }
    }

    /// Merges the entitlements of a binary into the profile's, by `merge` on the profile's own, the
    /// binary's, the profile's team and the new application identifier. A binary without
    /// entitlements is refused.
    pub fn merge_entitlements<
        F: Fn(PlistDictionary, PlistDictionary, Option<String>, String) -> PlistDictionary,
    >(
        &mut self,
        binary_entitlements: Option<PlistDictionary>,
        new_application_id: &str,
        merge: &F,
    ) -> (r: Result<(), CoreError>)
        requires
            forall|own: PlistDictionary, binary: PlistDictionary, team: Option<String>, id: String|
                call_requires(*merge, (own, binary, team, id)),
        ensures
            match (binary_entitlements, r) {
                (Some(binary), Ok(())) => {
                    &&& *final(self) == (MobileProvision {
                        entitlements: final(self).entitlements,
                        ..*old(self)
                    })
                    &&& merges_to(
                        *merge,
                        old(self)@.entitlements,
                        binary@,
                        new_application_id@,
                        final(self)@.entitlements,
                    )
                },
                (None, Err(e)) => e is ProvisioningEntitlementsUnknown && *final(self)
                    == *old(self),
                _ => false,
            },
    {
        let (binary, team, id): (PlistDictionary, Option<String>, String) =
            match self.merge_inputs(binary_entitlements, new_application_id) {
            Ok(inputs) => inputs,
            Err(e) => {
                return Err(e);
            },
        };
        let own: PlistDictionary = self.entitlements.duplicate();
        let merged: PlistDictionary = merge(own, binary, team, id);
        proof {
            assert(call_ensures(*merge, (own, binary, team, id), merged));
        }
        self.entitlements = merged;
        Ok(())
    }
}

// ---------------------------------------------------------------------------
// Laws
// ---------------------------------------------------------------------------

proof fn lemma_first_ungranted(
    granted: Seq<(Seq<char>, PlistModel)>,
    requested: Seq<(Seq<char>, PlistModel)>,
    from: int,
)
    requires
        0 <= from,
    ensures
        first_ungranted(granted, requested, from) is None == (forall|i: int|
            from <= i < requested.len() ==> entry_granted(granted, #[trigger] requested[i])),
    decreases requested.len() - from,
{
    if from < requested.len() {
        lemma_first_ungranted(granted, requested, from + 1);
    }
}

/// A profile is accepted exactly where it targets the platform, has not expired, covers the bundle,
/// lists the device, lists a certificate that is in force, and grants every requested entitlement.
pub proof fn law_accepted_profile(
    profile: ProfileModel,
    platform: DeveloperPlatform,
    bundle: Seq<char>,
    udid: Option<Seq<char>>,
    certificate: Option<Seq<u8>>,
    requested: Option<Seq<(Seq<char>, PlistModel)>>,
    now: Instant,
)
    ensures
        profile_refusal(profile, platform, bundle, udid, certificate, requested, now) is None <==> {
            &&& targets(profile.platforms, platform)
            &&& now.at() < profile.expiration.at()
            &&& text_entry(profile.entitlements, "application-identifier"@) matches Some(app)
                && identifier_covers(app, bundle)
            &&& udid matches Some(u) ==> device_udid(u) && lists_device(profile.devices, u)
            &&& certificate matches Some(der) && profile.certificates.contains(der) && (
            certificate_window(der) matches Some(w) && w.0 <= now.at() && now.at() <= w.1)
            &&& requested matches Some(entries) ==> forall|i: int|
                0 <= i < entries.len() ==> entry_granted(profile.entitlements, #[trigger] entries[i])
        },
{
    if let Some(entries) = requested {
        lemma_first_ungranted(profile.entitlements, entries, 0);
    }
}

/// A signed executable that is accepted has the bundle and the team of the profile, and each of its
/// other entitlements is granted.
pub proof fn law_accepted_executable(
    profile: ProfileModel,
    platform: DeveloperPlatform,
    bundle: Seq<char>,
    udid: Option<Seq<char>>,
    certificate: Option<Seq<u8>>,
    signed: Seq<(Seq<char>, PlistModel)>,
    now: Instant,
)
    requires
        final_refusal(profile, platform, bundle, udid, certificate, signed, now) is None,
    ensures
        profile_refusal(profile, platform, bundle, udid, certificate, Some(signed), now) is None,
        text_entry(signed, "application-identifier"@) matches Some(app) && bundle_of(app) == Some(
            bundle,
        ) && team_in(signed, app) == team_in(
            profile.entitlements,
            text_entry(profile.entitlements, "application-identifier"@)->0,
        ),
{
}

/// A value without `NaN` in which no dictionary holds a key twice.
pub open spec fn regular(value: PlistModel) -> bool
    decreases value,
{
    match value {
        PlistModel::Array(items) => forall|i: int|
            #![trigger item(items, i)]
            item(items, i) is Some ==> regular(item(items, i)->0),
        PlistModel::Dict(d) => crate::plist_value::distinct_keys(d) && forall|i: int|
            0 <= i < d.len() ==> regular((#[trigger] d[i]).1),
        PlistModel::Real(t) => t != "NaN"@,
        _ => true,
    }
}

/// An entitlement that holds exactly what is requested covers it.
pub proof fn law_value_covers_itself(value: PlistModel)
    requires
        regular(value),
    ensures
        covers(value, value),
    decreases value,
{
    match value {
        PlistModel::Text(s) => {
            crate::wildcard::law_pattern_matches_itself(s);
        },
        PlistModel::Array(items) => {
            assert(value->Array_0 == items);
            assert forall|i: int| #![trigger item(items, i)] item(items, i) is Some implies (exists|
                j: int,
            |
                #![trigger item(items, j)]
                item(items, j) is Some && covers(item(items, j)->0, item(items, i)->0)) by {
                assert(regular(item(items, i)->0));
                law_value_covers_itself(item(items, i)->0);
            }
        },
        PlistModel::Dict(d) => {
            assert forall|i: int| 0 <= i < d.len() implies match lookup(d, (#[trigger] d[i]).0) {
                Some(v) => covers(v, d[i].1),
                None => false,
            } by {
                crate::plist_value::lemma_lookup_at(d, i);
                law_value_covers_itself(d[i].1);
            }
        },
        _ => {},
    }
}

/// A plain value, which is no text, no collection and no real number, is granted by itself and by
/// nothing else, and grants nothing else.
pub proof fn law_plain_values_grant_themselves_alone(a: PlistModel, b: PlistModel)
    requires
        a is Boolean || a is Integer || a is Time || a is Data || a is Uid,
    ensures
        covers(a, b) <==> a == b,
        covers(b, a) <==> a == b,
{
}

/// Values of different kinds never grant each other.
pub proof fn law_kinds_do_not_mix(granted: PlistModel, requested: PlistModel)
    requires
        covers(granted, requested),
    ensures
        granted is Boolean <==> requested is Boolean,
        granted is Integer <==> requested is Integer,
        granted is Real <==> requested is Real,
        granted is Time <==> requested is Time,
        granted is Data <==> requested is Data,
        granted is Uid <==> requested is Uid,
        granted is Text <==> requested is Text,
        granted is Array <==> requested is Array,
        granted is Dict <==> requested is Dict,
{
}

/// A text without a star grants itself alone, and one that ends in its only star grants exactly what
/// begins with the rest of it.
pub proof fn law_granted_texts(granted: Seq<char>, requested: Seq<char>)
    requires
        !granted.contains('*'),
    ensures
        covers(PlistModel::Text(granted), PlistModel::Text(requested)) <==> granted == requested,
        covers(PlistModel::Text(granted.push('*')), PlistModel::Text(requested)) <==> (granted.len()
            <= requested.len() && requested.take(granted.len() as int) == granted),
{
    crate::wildcard::law_literal_pattern(granted, requested);
    crate::wildcard::law_trailing_star(granted, requested);
}

/// A real number grants an equal one alone; not a number grants nothing.
pub proof fn law_granted_reals(a: Seq<char>, b: Seq<char>)
    ensures
        covers(PlistModel::Real(a), PlistModel::Real(b)) ==> a == b || (a.last() == '0' && b.last()
            == '0' && a.len() <= 2 && b.len() <= 2),
        a == "NaN"@ || b == "NaN"@ ==> !covers(PlistModel::Real(a), PlistModel::Real(b)),
        covers(PlistModel::Real(a), PlistModel::Real(b)) == covers(
            PlistModel::Real(b),
            PlistModel::Real(a),
        ),
{
    reveal_strlit("NaN");
    reveal_strlit("0");
    reveal_strlit("-0");
    assert("0"@.last() == '0' && "-0"@.last() == '0' && "NaN"@.last() == 'N');
}

/// A list grants another exactly where each value of the other is granted by one of its own; so an
/// empty list grants an empty one alone.
pub proof fn law_granted_lists(granted: Seq<PlistModel>, requested: Seq<PlistModel>)
    ensures
        covers(PlistModel::Array(granted), PlistModel::Array(requested)) <==> forall|i: int|
            0 <= i < requested.len() ==> exists|j: int|
                0 <= j < granted.len() && covers(#[trigger] granted[j], #[trigger] requested[i]),
        granted.len() == 0 && requested.len() > 0 ==> !covers(
            PlistModel::Array(granted),
            PlistModel::Array(requested),
        ),
{
    let a = PlistModel::Array(granted);
    let b = PlistModel::Array(requested);
    assert(a->Array_0 == granted && b->Array_0 == requested);
    if covers(a, b) {
        assert forall|i: int| 0 <= i < requested.len() implies exists|j: int|
            0 <= j < granted.len() && covers(#[trigger] granted[j], #[trigger] requested[i]) by {
            assert(item(b->Array_0, i) is Some);
            let j = choose|j: int|
                #![trigger item(a->Array_0, j)]
                item(a->Array_0, j) is Some && covers(
                    item(a->Array_0, j)->0,
                    item(b->Array_0, i)->0,
                );
            assert(covers(granted[j], requested[i]));
        }
    }
    if forall|i: int|
        0 <= i < requested.len() ==> exists|j: int|
            0 <= j < granted.len() && covers(#[trigger] granted[j], #[trigger] requested[i]) {
        assert forall|i: int| #![trigger item(requested, i)] item(requested, i) is Some implies (
        exists|j: int|
            #![trigger item(granted, j)]
            item(granted, j) is Some && covers(item(granted, j)->0, item(requested, i)->0)) by {
            let r = requested[i];
            let j = choose|j: int|
                0 <= j < granted.len() && covers(#[trigger] granted[j], requested[i]);
            assert(item(granted, j) == Some(granted[j]));
        }
        assert(covers(a, b));
    }
    if requested.len() > 0 {
        let first = requested[0];
    }
}

/// A dictionary grants another only where it has each of its keys, with a value that grants the
/// other's.
pub proof fn law_granted_dictionaries(
    granted: Seq<(Seq<char>, PlistModel)>,
    requested: Seq<(Seq<char>, PlistModel)>,
    i: int,
)
    requires
        covers(PlistModel::Dict(granted), PlistModel::Dict(requested)),
        0 <= i < requested.len(),
    ensures
        exists|j: int|
            0 <= j < granted.len() && (#[trigger] granted[j]).0 == requested[i].0 && covers(
                granted[j].1,
                requested[i].1,
            ),
{
    let a = PlistModel::Dict(granted);
    let b = PlistModel::Dict(requested);
    assert(a->Dict_0 == granted && b->Dict_0 == requested);
    let e = requested[i];
    let j = crate::plist_value::key_index(granted, e.0, 0);
    crate::plist_value::lemma_key_index(granted, e.0, 0);
    assert(lookup(granted, e.0) is Some);
    assert(granted[j].0 == e.0);
}

/// A profile is refused where an executable asks for a plain value that the profile does not hold
/// under its key, be it absent, of another kind or another value. The two entitlements that name the app and its team are
/// compared in another way.
pub proof fn law_denied_entitlement_is_refused(
    profile: ProfileModel,
    platform: DeveloperPlatform,
    bundle: Seq<char>,
    udid: Option<Seq<char>>,
    certificate: Option<Seq<u8>>,
    requested: Seq<(Seq<char>, PlistModel)>,
    now: Instant,
    i: int,
)
    requires
        0 <= i < requested.len(),
        requested[i].0 != "application-identifier"@,
        requested[i].0 != "com.apple.developer.team-identifier"@,
        requested[i].1 is Boolean || requested[i].1 is Integer || requested[i].1 is Time
            || requested[i].1 is Data || requested[i].1 is Uid,
        forall|j: int|
            0 <= j < profile.entitlements.len() && (#[trigger] profile.entitlements[j]).0
                == requested[i].0 ==> profile.entitlements[j].1 != requested[i].1,
    ensures
        profile_refusal(
            profile,
            platform,
            bundle,
            udid,
            certificate,
            Some(requested),
            now,
        ) is Some,
{
    law_accepted_profile(profile, platform, bundle, udid, certificate, Some(requested), now);
    let e = requested[i];
    crate::plist_value::lemma_key_index(profile.entitlements, e.0, 0);
    assert(!entry_granted(profile.entitlements, e));
}

/// What a profile grants to a larger request it grants to each part of it: an entitlement more makes
/// it harder to accept, one less easier.
pub proof fn law_fewer_entitlements_are_easier(
    profile: ProfileModel,
    platform: DeveloperPlatform,
    bundle: Seq<char>,
    udid: Option<Seq<char>>,
    certificate: Option<Seq<u8>>,
    requested: Seq<(Seq<char>, PlistModel)>,
    more: (Seq<char>, PlistModel),
    now: Instant,
)
    requires
        profile_refusal(
            profile,
            platform,
            bundle,
            udid,
            certificate,
            Some(requested.push(more)),
            now,
        ) is None,
    ensures
        profile_refusal(
            profile,
            platform,
            bundle,
            udid,
            certificate,
            Some(requested),
            now,
        ) is None,
        profile_refusal(
            profile,
            platform,
            bundle,
            udid,
            certificate,
            Some(seq![more]),
            now,
        ) is None,
{
    let all = requested.push(more);
    law_accepted_profile(profile, platform, bundle, udid, certificate, Some(all), now);
    law_accepted_profile(profile, platform, bundle, udid, certificate, Some(requested), now);
    law_accepted_profile(profile, platform, bundle, udid, certificate, Some(seq![more]), now);
    assert forall|i: int| 0 <= i < requested.len() implies entry_granted(
        profile.entitlements,
        #[trigger] requested[i],
    ) by {
        assert(all[i] == requested[i]);
    }
    assert(all[requested.len() as int] == more);
}

/// A profile is good for one platform alone: one that lists television systems under any case of
/// letters is no profile for a telephone, and the other way round.
pub proof fn law_profile_names_its_platform(platforms: Seq<Seq<char>>)
    ensures
        targets(platforms, DeveloperPlatform::Tvos) <==> exists|i: int|
            0 <= i < platforms.len() && lower(#[trigger] platforms[i]) == "tvos"@,
        targets(platforms, DeveloperPlatform::Ios) <==> exists|i: int|
            0 <= i < platforms.len() && (lower(#[trigger] platforms[i]) == "ios"@ || lower(
                platforms[i],
            ) == "iphoneos"@),
{
    reveal_strlit("tvos");
    reveal_strlit("ios");
    reveal_strlit("iphoneos");
    assert(lower("tvos"@) =~= "tvos"@);
    assert(lower("ios"@) =~= "ios"@);
    assert(lower("iphoneos"@) =~= "iphoneos"@);
}

/// An expired profile is refused whatever else holds of it, and so is one that lists the device
/// nowhere, or not the certificate.
pub proof fn law_stale_profile_is_refused(
    profile: ProfileModel,
    platform: DeveloperPlatform,
    bundle: Seq<char>,
    udid: Option<Seq<char>>,
    certificate: Option<Seq<u8>>,
    requested: Option<Seq<(Seq<char>, PlistModel)>>,
    now: Instant,
)
    requires
        ({
            ||| now.at() >= profile.expiration.at()
            ||| profile.platforms.len() == 0
            ||| certificate is None
            ||| certificate matches Some(der) && forall|i: int|
                0 <= i < profile.certificates.len() ==> #[trigger] profile.certificates[i] != der
            ||| udid matches Some(u) && forall|i: int|
                0 <= i < profile.devices.len() ==> lower(#[trigger] profile.devices[i]) != lower(u)
            ||| forall|i: int|
                0 <= i < profile.entitlements.len() ==> (#[trigger] profile.entitlements[i]).0
                    != "application-identifier"@
        }),
    ensures
        profile_refusal(
            profile,
            platform,
            bundle,
            udid,
            certificate,
            requested,
            now,
        ) is Some,
{
    law_accepted_profile(profile, platform, bundle, udid, certificate, requested, now);
    crate::plist_value::lemma_key_index(profile.entitlements, "application-identifier"@, 0);
}

/// An application identifier of a team grants the bundle that it names and no other. With a star it
/// grants every bundle of the team, or those below the name before the star.
pub proof fn law_identifier_grants_its_bundle(
    team: Seq<char>,
    bundle: Seq<char>,
    requested: Seq<char>,
)
    requires
        team.len() == 10,
        forall|i: int|
            0 <= i < 10 ==> ('A' <= #[trigger] team[i] && team[i] <= 'Z') || ('0' <= team[i]
                && team[i] <= '9'),
        bundle.len() > 0,
        bundle.last() != '*',
    ensures
        identifier_covers(team + seq!['.'] + bundle, requested) <==> requested == bundle,
        identifier_covers(team + seq!['.', '*'], requested),
        identifier_covers(team + seq!['.'] + bundle + seq!['.', '*'], requested) <==> ((requested.len()
            > bundle.len() && requested.take(bundle.len() as int + 1) == bundle + seq!['.']) || requested
            == bundle + seq!['.', '*']),
{
    reveal_strlit("*");
    reveal_strlit(".*");
    lemma_team_then_bundle(team, bundle);
    if is_suffix(".*"@, bundle) {
        assert(bundle.subrange(bundle.len() - 2, bundle.len() as int)[1] == '*');
    }
    if bundle == "*"@ {
        assert(bundle.last() == '*');
    }
    lemma_team_then_bundle(team, seq!['*']);
    assert(team + seq!['.'] + seq!['*'] =~= team + seq!['.', '*']);
    assert(seq!['*'] =~= "*"@);
    let wild = bundle + seq!['.', '*'];
    lemma_team_then_bundle(team, wild);
    assert(team + seq!['.'] + wild =~= team + seq!['.'] + bundle + seq!['.', '*']);
    assert(wild.subrange(wild.len() - 2, wild.len() as int) =~= ".*"@);
    assert(wild != "*"@) by {
        assert(wild.len() >= 3);
    }
    let stem = wild.take(wild.len() - 1);
    assert(stem =~= bundle + seq!['.']);
    if requested.len() >= stem.len() {
        assert(requested.subrange(0, stem.len() as int) =~= requested.take(bundle.len() as int + 1));
    }
}

proof fn lemma_team_then_bundle(team: Seq<char>, bundle: Seq<char>)
    requires
        team.len() == 10,
        forall|i: int|
            0 <= i < 10 ==> ('A' <= #[trigger] team[i] && team[i] <= 'Z') || ('0' <= team[i]
                && team[i] <= '9'),
        bundle.len() > 0,
    ensures
        bundle_of(team + seq!['.'] + bundle) == Some(bundle),
        team_of(team + seq!['.'] + bundle) == Some(team),
{
    let value = team + seq!['.'] + bundle;
    lemma_first_dot(value, 0);
    assert(value[10] == '.');
    assert forall|i: int| 0 <= i < 10 implies value[i] != '.' by {
        assert(value[i] == team[i]);
    }
    assert(index_or_len(value, '.', 0) == 10);
    assert(value.take(10) =~= team);
    assert(value.skip(11) =~= bundle);
}

proof fn lemma_first_dot(value: Seq<char>, from: int)
    requires
        0 <= from <= value.len(),
    ensures
        from <= index_or_len(value, '.', from) <= value.len(),
        index_or_len(value, '.', from) < value.len() ==> value[index_or_len(value, '.', from)]
            == '.',
        forall|j: int| from <= j < index_or_len(value, '.', from) ==> value[j] != '.',
    decreases value.len() - from,
{
    if from < value.len() && value[from] != '.' {
        lemma_first_dot(value, from + 1);
    }
}

/// An executable is refused whose team is another than that of the profile, whatever the profile
/// grants to it.
pub proof fn law_foreign_team_is_refused(
    profile: ProfileModel,
    platform: DeveloperPlatform,
    udid: Option<Seq<char>>,
    certificate: Option<Seq<u8>>,
    signed: Seq<(Seq<char>, PlistModel)>,
    now: Instant,
    bundle: Seq<char>,
    own: Seq<char>,
    foreign: Seq<char>,
    granted: Seq<char>,
)
    requires
        own.len() == 10 && foreign.len() == 10 && own != foreign,
        forall|i: int|
            0 <= i < 10 ==> ('A' <= #[trigger] own[i] && own[i] <= 'Z') || ('0' <= own[i] && own[i]
                <= '9'),
        forall|i: int|
            0 <= i < 10 ==> ('A' <= #[trigger] foreign[i] && foreign[i] <= 'Z') || ('0' <= foreign[i]
                && foreign[i] <= '9'),
        bundle.len() > 0 && granted.len() > 0,
        text_entry(profile.entitlements, "application-identifier"@) == Some(
            own + seq!['.'] + granted,
        ),
        text_entry(signed, "application-identifier"@) == Some(foreign + seq!['.'] + bundle),
    ensures
        final_refusal(
            profile,
            platform,
            bundle,
            udid,
            certificate,
            signed,
            now,
        ) is Some,
{
    lemma_team_then_bundle(own, granted);
    lemma_team_then_bundle(foreign, bundle);
}

/// What names a device: forty hexadecimal digits, or eight and sixteen with a hyphen between them, in
/// either case of letters, and nothing else.
pub proof fn law_device_identifiers(s: Seq<char>)
    ensures
        device_udid(s) ==> s.len() == 40 || (s.len() == 25 && s[8] == '-'),
        device_udid(s) ==> forall|i: int|
            0 <= i < s.len() && !(s.len() == 25 && i == 8) ==> {
                let c = #[trigger] s[i];
                ('0' <= c && c <= '9') || ('a' <= c && c <= 'f') || ('A' <= c && c <= 'F')
            },
        (s.len() == 40 || (s.len() == 25 && s[8] == '-')) && (forall|i: int|
            0 <= i < s.len() && !(s.len() == 25 && i == 8) ==> {
                let c = #[trigger] s[i];
                ('0' <= c && c <= '9') || ('a' <= c && c <= 'f') || ('A' <= c && c <= 'F')
            }) ==> device_udid(s),
{
}

/// The texts of a list are those of its values that are texts, and its bytes those that are bytes: all
/// of them, and no others.
pub proof fn law_lists_give_what_they_hold(
    items: Seq<PlistModel>,
    text: Seq<char>,
    data: Seq<u8>,
)
    ensures
        texts_among(items).contains(text) <==> items.contains(PlistModel::Text(text)),
        data_among(items).contains(data) <==> items.contains(PlistModel::Data(data)),
        texts_among(items).len() <= items.len(),
        data_among(items).len() <= items.len(),
        texts_in(Some(PlistModel::Array(items))) == texts_among(items),
        texts_in(Some(PlistModel::Text(text))) == seq![text],
        data_in(Some(PlistModel::Array(items))) == data_among(items),
        texts_in(None).len() == 0 && data_in(None).len() == 0,
    decreases items.len(),
{
    if items.len() > 0 {
        let front = items.drop_last();
        let last = items.last();
        law_lists_give_what_they_hold(front, text, data);
        let t = PlistModel::Text(text);
        let d = PlistModel::Data(data);
        assert(items.contains(t) <==> front.contains(t) || last == t) by {
            lemma_last_or_before(items, t);
        }
        assert(items.contains(d) <==> front.contains(d) || last == d) by {
            lemma_last_or_before(items, d);
        }
        let th = texts_among(front);
        let ta = texts_among(items);
        if th.contains(text) {
            let i = choose|i: int| 0 <= i < th.len() && th[i] == text;
            assert(ta[i] == text);
        }
        if last == t {
            assert(ta[th.len() as int] == text);
        }
        if ta.contains(text) {
            let i = choose|i: int| 0 <= i < ta.len() && ta[i] == text;
            if i < th.len() {
                assert(th[i] == text);
            }
        }
        let dh = data_among(front);
        let da = data_among(items);
        if dh.contains(data) {
            let i = choose|i: int| 0 <= i < dh.len() && dh[i] == data;
            assert(da[i] == data);
        }
        if last == d {
            assert(da[dh.len() as int] == data);
        }
        if da.contains(data) {
            let i = choose|i: int| 0 <= i < da.len() && da[i] == data;
            if i < dh.len() {
                assert(dh[i] == data);
            }
        }
    }
}

proof fn lemma_last_or_before(items: Seq<PlistModel>, v: PlistModel)
    requires
        items.len() > 0,
    ensures
        items.contains(v) <==> items.drop_last().contains(v) || items.last() == v,
{
    let front = items.drop_last();
    if items.contains(v) {
        let i = choose|i: int| 0 <= i < items.len() && items[i] == v;
        if i < front.len() {
            assert(front[i] == v);
        }
    }
    if front.contains(v) {
        let i = choose|i: int| 0 <= i < front.len() && front[i] == v;
        assert(items[i] == v);
    }
    assert(items[items.len() - 1] == items.last());
}

/// A profile is read exactly where the list has entitlements and a date on which they expire, and it
/// has those and what the list says of its platforms, devices and certificates.
pub proof fn law_profile_is_what_the_list_says(d: Seq<(Seq<char>, PlistModel)>)
    ensures
        ({
            let plist = PlistModel::Dict(d);
            &&& profile_in(plist) is Some <==> (lookup(d, "Entitlements"@) matches Some(e)
                && e is Dict) && (lookup(d, "ExpirationDate"@) matches Some(t) && t is Time)
            &&& profile_in(plist) matches Some(p) ==> {
                &&& lookup(d, "Entitlements"@) == Some(PlistModel::Dict(p.entitlements))
                &&& lookup(d, "ExpirationDate"@) == Some(PlistModel::Time(p.expiration))
                &&& p.platforms == texts_in(lookup(d, "Platform"@))
                &&& p.devices == texts_in(lookup(d, "ProvisionedDevices"@))
                &&& p.certificates == data_in(lookup(d, "DeveloperCertificates"@))
            }
        }),
{
}

/// The list in a signed profile begins with its opening tag and ends with its closing tag.
pub proof fn law_list_lies_between_its_tags(data: Seq<u8>, part: Seq<u8>)
    requires
        plist_part(data) == Some(part),
        part.len() >= 14,
        tags_in_order(data),
    ensures
        part.take(6) == ascii_bytes("<plist"@),
        part.skip(part.len() - 8) == ascii_bytes("</plist>"@),
{
    reveal_strlit("<plist");
    reveal_strlit("</plist>");
    let start = choose|i: int| plist_start(data, i);
    let end = choose|i: int| plist_end(data, i);
    lemma_plist_part(data, start, end);
    assert(start <= end);
    assert(part == data.subrange(start, end));
    assert(part.len() == end - start);
    assert(part.take(6) =~= data.subrange(start, start + 6));
    assert(part.skip(part.len() - 8) =~= data.subrange(end - 8, end));
}

/// A profile that is for the platform, not expired, of the bundle, with the device and with a
/// certificate that is valid now is accepted, and grants what it says.
pub proof fn law_fitting_profile_is_accepted(
    profile: ProfileModel,
    platform: DeveloperPlatform,
    team: Seq<char>,
    bundle: Seq<char>,
    udid: Option<Seq<char>>,
    der: Seq<u8>,
    now: Instant,
    key: Seq<char>,
    value: PlistModel,
)
    requires
        team.len() == 10,
        forall|i: int|
            0 <= i < 10 ==> ('A' <= #[trigger] team[i] && team[i] <= 'Z') || ('0' <= team[i]
                && team[i] <= '9'),
        bundle.len() > 0,
        targets(profile.platforms, platform),
        now.at() < profile.expiration.at(),
        text_entry(profile.entitlements, "application-identifier"@) == Some(
            team + seq!['.'] + bundle,
        ),
        udid matches Some(u) ==> device_udid(u) && profile.devices.contains(u),
        profile.certificates.contains(der),
        certificate_window(der) matches Some(w) && w.0 <= now.at() && now.at() <= w.1,
        lookup(profile.entitlements, key) == Some(value),
        regular(value),
    ensures
        profile_refusal(profile, platform, bundle, udid, Some(der), None, now) is None,
        profile_refusal(
            profile,
            platform,
            bundle,
            udid,
            Some(der),
            Some(seq![(key, value)]),
            now,
        ) is None,
{
    lemma_team_then_bundle(team, bundle);
    law_value_covers_itself(value);
    if let Some(u) = udid {
        let i = choose|i: int| 0 <= i < profile.devices.len() && profile.devices[i] == u;
        assert(same_ignoring_case(profile.devices[i], u));
    }
    reveal_with_fuel(first_ungranted, 2);
}

/// A certificate that cannot be read, or that is not valid now, is refused.
pub proof fn law_stale_certificate_is_refused(
    profile: ProfileModel,
    platform: DeveloperPlatform,
    bundle: Seq<char>,
    udid: Option<Seq<char>>,
    der: Seq<u8>,
    requested: Option<Seq<(Seq<char>, PlistModel)>>,
    signed: Seq<(Seq<char>, PlistModel)>,
    now: Instant,
)
    requires
        certificate_window(der) matches Some(w) ==> now.at() < w.0 || now.at() > w.1,
    ensures
        profile_refusal(profile, platform, bundle, udid, Some(der), requested, now) is Some,
        final_refusal(profile, platform, bundle, udid, Some(der), signed, now) is Some,
{
}

/// An executable that is signed for another bundle, or that names none, is refused.
pub proof fn law_executable_of_another_bundle_is_refused(
    profile: ProfileModel,
    platform: DeveloperPlatform,
    bundle: Seq<char>,
    udid: Option<Seq<char>>,
    certificate: Option<Seq<u8>>,
    signed: Seq<(Seq<char>, PlistModel)>,
    now: Instant,
    team: Seq<char>,
    other: Seq<char>,
)
    requires
        team.len() == 10,
        forall|i: int|
            0 <= i < 10 ==> ('A' <= #[trigger] team[i] && team[i] <= 'Z') || ('0' <= team[i]
                && team[i] <= '9'),
        other.len() > 0,
        other != bundle,
        ({
            ||| text_entry(signed, "application-identifier"@) is None
            ||| text_entry(signed, "application-identifier"@) == Some(team + seq!['.'] + other)
        }),
    ensures
        final_refusal(profile, platform, bundle, udid, certificate, signed, now) is Some,
{
    lemma_team_then_bundle(team, other);
}

/// An executable that is signed with the very entitlements of a profile that fits is accepted, where
/// they name the bundle and nothing else.
pub proof fn law_matching_executable_is_accepted(
    profile: ProfileModel,
    platform: DeveloperPlatform,
    team: Seq<char>,
    bundle: Seq<char>,
    udid: Option<Seq<char>>,
    certificate: Option<Seq<u8>>,
    now: Instant,
)
    requires
        team.len() == 10,
        forall|i: int|
            0 <= i < 10 ==> ('A' <= #[trigger] team[i] && team[i] <= 'Z') || ('0' <= team[i]
                && team[i] <= '9'),
        bundle.len() > 0,
        profile.entitlements == seq![
            ("application-identifier"@, PlistModel::Text(team + seq!['.'] + bundle)),
        ],
        profile_refusal(profile, platform, bundle, udid, certificate, None, now) is None,
    ensures
        final_refusal(
            profile,
            platform,
            bundle,
            udid,
            certificate,
            profile.entitlements,
            now,
        ) is None,
{
    reveal_strlit("application-identifier");
    reveal_strlit("com.apple.developer.team-identifier");
    assert("application-identifier"@.len() != "com.apple.developer.team-identifier"@.len());
    lemma_team_then_bundle(team, bundle);
    reveal_with_fuel(crate::plist_value::key_index, 2);
    reveal_with_fuel(first_ungranted, 2);
}

/// A profile is loaded with its own bytes, and exactly where they hold a list that is one.
pub proof fn law_profile_is_loaded(data: Seq<u8>, r: Result<MobileProvision, CoreError>)
    requires
        loaded(data, r),
    ensures
        r matches Ok(p) ==> p.data@ == data,
        plist_part(data) is None ==> r is Err,
        r is Ok <==> (plist_part(data) matches Some(part) && (xml_plist(part) matches Some(v)
            && profile_in(v) is Some)),
        r matches Ok(p) ==> Some(p@) == profile_in(xml_plist(plist_part(data)->0)->0),
{
}

} // verus!
