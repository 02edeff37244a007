//! The headers that identify a machine to the sign-in service.
use crate::error::CoreError;
use crate::plist_model::group_plist_models;
use crate::plist_value::{with_entry, PlistDictionary, PlistModel, PlistValue};
use crate::table::{held, law_stored_then_held, slot, stored, Table, TableKey};
use crate::text::{
    chars_of, find_from, find_index, has_text, index_or_len, is_alnum, lemma_find_index,
    lemma_find_skip, occurs_at, replace, replaced, same_text, string_of, unicode_lower,
    unicode_lowercase,
};
use vstd::prelude::*;

verus! {

broadcast use group_plist_models;

pub const DEFAULT_ANISETTE_URL: &'static str = "https://ani.f1sh.me/";

pub const DEFAULT_ANISETTE_URL_V3: &'static str = "https://ani.sidestore.app";

/// The client that the sign-in service accepts: the daemon that does this on a Mac.
///
/// This is unrelated to the identifier of the app in other headers, which stays as it is.
pub const AUTHKIT_CLIENT_INFO: &'static str = "com.apple.AuthKit/1 (com.apple.akd/1.0)";

/// The start of a client token that the sign-in service refuses.
pub const BLOCKED_GSA_CLIENT_TOKEN_PREFIX: &'static str = "com.apple.dt.Xcode";

/// The client token that the sign-in service accepts.
pub const GSA_CLIENT_TOKEN: &'static str = "com.apple.akd/1.0";

/// What this machine says of itself where it makes its own headers.
pub const CLIENT_INFO_HEADER: &'static str = "<MacBookPro13,2> <macOS;13.1;22C65> <com.apple.AuthKit/1 (com.apple.akd/1.0)>";

// ---------------------------------------------------------------------------
// Cleaning client information
// ---------------------------------------------------------------------------

/// A character of a version.
pub open spec fn version_char(c: char) -> bool {
    is_alnum(c) || c == '.' || c == '-' || c == '_'
}

/// The index of the first character at or after `from` that is none of a version, or the length.
pub open spec fn version_end(s: Seq<char>, from: int) -> int
    decreases s.len() - from,
{
    if from < s.len() && version_char(s[from]) {
        version_end(s, from + 1)
    } else {
        from
    }
}

/// The index behind a token that starts at `at`, with the version behind a slash, if there is one.
pub open spec fn token_end(s: Seq<char>, at: int) -> int {
    let end = at + BLOCKED_GSA_CLIENT_TOKEN_PREFIX@.len();
    if end < s.len() && s[end] == '/' {
        version_end(s, end + 1)
    } else {
        end
    }
}

/// `s` with every refused token replaced by the accepted one.
pub open spec fn cleaned(s: Seq<char>) -> Seq<char>
    decreases s.len(),
{
    match find_index(s, BLOCKED_GSA_CLIENT_TOKEN_PREFIX@, 0) {
        Some(i) => if 0 <= i < token_end(s, i) <= s.len() {
            s.take(i) + GSA_CLIENT_TOKEN@ + cleaned(s.skip(token_end(s, i)))
        } else {
            s
        },
        None => s,
    }
}

proof fn lemma_version_end(s: Seq<char>, from: int)
    requires
        0 <= from <= s.len(),
    ensures
        from <= version_end(s, from) <= s.len(),
    decreases s.len() - from,
{
    if from < s.len() && version_char(s[from]) {
        lemma_version_end(s, from + 1);
    }
}

proof fn lemma_version_end_skip(s: Seq<char>, at: int, from: int)
    requires
        0 <= at <= s.len(),
        0 <= from <= s.len() - at,
    ensures
        version_end(s.skip(at), from) == version_end(s, at + from) - at,
    decreases s.len() - at - from,
{
    if from < s.len() - at && version_char(s[at + from]) {
        lemma_version_end_skip(s, at, from + 1);
    }
}

/// Replaces every refused client token, with its version, by the accepted one. Texts without such a
/// token stay as they are.
pub fn sanitize_gsa_client_info(info: &str) -> (r: String)
    ensures
        r@ == cleaned(info@),
{
    let chars: Vec<char> = chars_of(info);
    let token: Vec<char> = chars_of(BLOCKED_GSA_CLIENT_TOKEN_PREFIX);
    let n: usize = chars.len();
    let token_len: usize = token.len();
    let mut out: String = String::new();
    let mut at: usize = 0;
    proof {
        reveal_strlit("com.apple.dt.Xcode");
        assert(info@.skip(0) =~= info@);
        assert(out@ + cleaned(info@) =~= cleaned(info@));
    }
    loop
        invariant
            chars@ == info@,
            token@ == BLOCKED_GSA_CLIENT_TOKEN_PREFIX@,
            token_len == token@.len(),
            token_len == 18,
            n == chars@.len(),
            at <= n,
            out@ + cleaned(info@.skip(at as int)) == cleaned(info@),
        decreases n - at,
    {
        let ghost rest = info@.skip(at as int);
        let ghost before = out@;
        proof {
            lemma_find_skip(info@, token@, at as int, 0);
            lemma_find_index(info@, token@, at as int);
        }
        match find_from(&chars, &token, at) {
            None => {
                out.append(string_of(&chars, at, n).as_str());
                proof {
                    assert(rest =~= info@.subrange(at as int, n as int));
                }
                return out;
            },
            Some(pos) => {
                let start: usize = pos + token_len;
                let mut end: usize = start;
                if end < n && chars[end] == '/' {
                    end += 1;
                    while end < n && (('A' <= chars[end] && chars[end] <= 'Z') || ('a' <= chars[end]
                        && chars[end] <= 'z') || ('0' <= chars[end] && chars[end] <= '9')
                        || chars[end] == '.' || chars[end] == '-' || chars[end] == '_')
                        invariant
                            chars@ == info@,
                            n == chars@.len(),
                            start < end <= n,
                            version_end(info@, start + 1) == version_end(info@, end as int),
                        decreases n - end,
                    {
                        end += 1;
                    }
                    proof {
                        lemma_version_end_skip(
                            info@,
                            at as int,
                            start + 1 - at,
                        );
                        assert(version_end(info@, start + 1) == end);
                    }
                }
                proof {
                    assert(rest[start - at] == info@[start as int] || start == n);
                    assert(token_end(rest, pos - at) == end - at);
                }
                out.append(string_of(&chars, at, pos).as_str());
                out.append(GSA_CLIENT_TOKEN);
                proof {
                    assert(info@.subrange(at as int, pos as int) =~= rest.take(pos - at));
                    assert(rest.skip(end - at) =~= info@.skip(end as int));
                    assert(out@ + cleaned(info@.skip(end as int)) =~= before + (rest.take(pos - at)
                        + GSA_CLIENT_TOKEN@ + cleaned(info@.skip(end as int))));
                }
                at = end;
            },
        }
    }
}

/// A text without a refused token stays as it is.
pub proof fn law_clean_text_is_unchanged(s: Seq<char>)
    requires
        !has_text(s, BLOCKED_GSA_CLIENT_TOKEN_PREFIX@),
    ensures
        cleaned(s) == s,
{
    lemma_find_index(s, BLOCKED_GSA_CLIENT_TOKEN_PREFIX@, 0);
}

/// No refused token is left in a cleaned text.
pub proof fn law_cleaned_text_has_no_refused_token(s: Seq<char>)
    ensures
        !has_text(cleaned(s), BLOCKED_GSA_CLIENT_TOKEN_PREFIX@),
    decreases s.len(),
{
    let b = BLOCKED_GSA_CLIENT_TOKEN_PREFIX@;
    let t = GSA_CLIENT_TOKEN@;
    reveal_strlit("com.apple.dt.Xcode");
    reveal_strlit("com.apple.akd/1.0");
    lemma_find_index(s, b, 0);
    match find_index(s, b, 0) {
        None => {},
        Some(i) => {
            let end = token_end(s, i);
            let start = i + b.len();
            if start < s.len() && s[start] == '/' {
                lemma_version_end(s, start + 1);
            }
            let a = s.take(i);
            let c = cleaned(s.skip(end));
            law_cleaned_text_has_no_refused_token(s.skip(end));
            let all = a + t + c;
            assert(cleaned(s) == all);
            assert forall|k: int| !occurs_at(all, b, k) by {
                if occurs_at(all, b, k) {
                    let w = all.subrange(k, k + b.len());
                    assert(w == b);
                    if k + b.len() <= a.len() {
                        assert(s.subrange(k, k + b.len()) =~= w);
                        assert(occurs_at(s, b, k));
                    } else if k >= a.len() + t.len() {
                        let j = k - a.len() - t.len();
                        assert(c.subrange(j, j + b.len()) =~= w);
                        assert(occurs_at(c, b, j));
                    } else if k <= a.len() {
                        let off = a.len() - k;
                        assert(w[off] == t[0]);
                        assert(b[off] == 'c');
                        assert(off == 0 || off == 14);
                        if off == 0 {
                            assert(w[10] == t[10]);
                        } else {
                            assert(w[16] == t[2]);
                        }
                    } else {
                        let x = k - a.len();
                        assert(w[0] == t[x]);
                        assert(1 <= x < 17);
                        assert(t[x] != 'c');
                    }
                }
            }
        },
    }
}

/// Cleaning a text twice is cleaning it once.
pub proof fn law_cleaning_twice(s: Seq<char>)
    ensures
        cleaned(cleaned(s)) == cleaned(s),
{
    law_cleaned_text_has_no_refused_token(s);
    law_clean_text_is_unchanged(cleaned(s));
}

/// Where a refused token was, the accepted one is.
pub proof fn law_accepted_token_takes_its_place(s: Seq<char>)
    requires
        has_text(s, BLOCKED_GSA_CLIENT_TOKEN_PREFIX@),
    ensures
        has_text(cleaned(s), GSA_CLIENT_TOKEN@),
{
    let b = BLOCKED_GSA_CLIENT_TOKEN_PREFIX@;
    let t = GSA_CLIENT_TOKEN@;
    reveal_strlit("com.apple.dt.Xcode");
    lemma_find_index(s, b, 0);
    let i = find_index(s, b, 0)->0;
    let start = i + b.len();
    if start < s.len() && s[start] == '/' {
        lemma_version_end(s, start + 1);
    }
    let all = cleaned(s);
    assert(all.subrange(i, i + t.len()) =~= t);
    assert(occurs_at(all, t, i));
}

// ---------------------------------------------------------------------------
// Configuration
// ---------------------------------------------------------------------------

/// Where headers come from.
#[derive(Debug)]
pub struct AnisetteConfiguration {
    pub anisette_url: String,
    pub anisette_url_v3: String,
    pub configuration_path: String,
    pub macos_serial: String,
}

impl Clone for AnisetteConfiguration {
    fn clone(&self) -> (r: AnisetteConfiguration)
        ensures
            r == *self,
    {
        AnisetteConfiguration {
            anisette_url: self.anisette_url.clone(),
            anisette_url_v3: self.anisette_url_v3.clone(),
            configuration_path: self.configuration_path.clone(),
            macos_serial: self.macos_serial.clone(),
        }
    }
}

impl Default for AnisetteConfiguration {
    fn default() -> (r: AnisetteConfiguration)
        ensures
            is_default(r),
    {
        AnisetteConfiguration::new()
    }
}

/// The configuration where nothing was chosen.
pub open spec fn is_default(c: AnisetteConfiguration) -> bool {
    &&& c.anisette_url@ == DEFAULT_ANISETTE_URL@
    &&& c.anisette_url_v3@ == DEFAULT_ANISETTE_URL_V3@
    &&& c.configuration_path@ == Seq::<char>::empty()
    &&& c.macos_serial@ == "0"@
}

impl AnisetteConfiguration {
    pub fn new() -> (r: AnisetteConfiguration)
        ensures
            is_default(r),
    {
        AnisetteConfiguration {
            anisette_url: DEFAULT_ANISETTE_URL.to_string(),
            anisette_url_v3: DEFAULT_ANISETTE_URL_V3.to_string(),
            configuration_path: String::new(),
            macos_serial: "0".to_string(),
        }
    }

    pub fn anisette_url(&self) -> (r: &String)
        ensures
            *r == self.anisette_url,
    {
        &self.anisette_url
    }

    pub fn configuration_path(&self) -> (r: &String)
        ensures
            *r == self.configuration_path,
    {
        &self.configuration_path
    }

    pub fn set_anisette_url(self, anisette_url: String) -> (r: AnisetteConfiguration)
        ensures
            r == (AnisetteConfiguration { anisette_url, ..self }),
    {
        AnisetteConfiguration { anisette_url, ..self }
    }

    pub fn set_macos_serial(self, macos_serial: String) -> (r: AnisetteConfiguration)
        ensures
            r == (AnisetteConfiguration { macos_serial, ..self }),
    {
        AnisetteConfiguration { macos_serial, ..self }
    }

    pub fn set_configuration_path(self, configuration_path: String) -> (r: AnisetteConfiguration)
        ensures
            r == (AnisetteConfiguration { configuration_path, ..self }),
    {
        AnisetteConfiguration { configuration_path, ..self }
    }
}

#[derive(Debug, Clone, Copy, PartialEq, Eq, Structural)]
pub enum AnisetteHeadersProviderType {
    Local,
    Remote,
}

/// A source of headers and where it is.
pub struct AnisetteHeadersProviderRes<P> {
    pub provider: P,
    pub provider_type: AnisetteHeadersProviderType,
}

impl<P> AnisetteHeadersProviderRes<P> {
    pub fn local(provider: P) -> (r: AnisetteHeadersProviderRes<P>)
        ensures
            r.provider == provider,
            r.provider_type == AnisetteHeadersProviderType::Local,
    {
        AnisetteHeadersProviderRes { provider, provider_type: AnisetteHeadersProviderType::Local }
    }

    pub fn remote(provider: P) -> (r: AnisetteHeadersProviderRes<P>)
        ensures
            r.provider == provider,
            r.provider_type == AnisetteHeadersProviderType::Remote,
    {
        AnisetteHeadersProviderRes { provider, provider_type: AnisetteHeadersProviderType::Remote }
    }
}

/// Why there are no headers.
#[derive(Debug)]
pub enum AnisetteError {
    UnsupportedDevice,
    InvalidArgument(String),
    AnisetteNotProvisioned,
    InvalidLibraryFormat,
    Misc,
    MissingLibraries,
    /// A failure of what the headers are made with.
    Failed(String),
}

/// The error of the first of the three steps that set up the local source and fails: opening the
/// library, telling it where it keeps its state, and making the source.
pub open spec fn setup_error<P>(
    opened: Result<(), AnisetteError>,
    path_is_text: bool,
    provisioned: Result<(), AnisetteError>,
    provider: Result<P, AnisetteError>,
    e: AnisetteError,
) -> bool {
    if opened is Err {
        e == opened->Err_0
    } else if !path_is_text {
        e matches AnisetteError::InvalidArgument(m) && m@ == "configuration.configuration_path"@
    } else if provisioned is Err {
        e == provisioned->Err_0
    } else {
        provider is Err && e == provider->Err_0
    }
}

/// The choice of a source of headers.
pub struct AnisetteHeaders;

impl AnisetteHeaders {
    /// The local source where it could be set up, else the remote one.
    pub fn get_anisette_headers_provider<P, E>(local: Result<P, E>, remote: P) -> (r:
        AnisetteHeadersProviderRes<P>)
        ensures
            match local {
                Ok(provider) => r.provider == provider && r.provider_type
                    == AnisetteHeadersProviderType::Local,
                Err(_) => r.provider == remote && r.provider_type
                    == AnisetteHeadersProviderType::Remote,
            },
    {
        match local {
            Ok(provider) => AnisetteHeadersProviderRes::local(provider),
            Err(_) => AnisetteHeadersProviderRes::remote(remote),
        }
    }

    /// The local source, from the outcomes of the steps that set it up. The path under which it
    /// keeps its state must be a text.
    pub fn get_ssc_anisette_headers_provider<P>(
        opened: Result<(), AnisetteError>,
        path_is_text: bool,
        provisioned: Result<(), AnisetteError>,
        provider: Result<P, AnisetteError>,
    ) -> (r: Result<AnisetteHeadersProviderRes<P>, AnisetteError>)
        ensures
            r is Ok == (opened is Ok && path_is_text && provisioned is Ok && provider is Ok),
            match r {
                Ok(local) => local.provider == provider->Ok_0 && local.provider_type
                    == AnisetteHeadersProviderType::Local,
                Err(e) => setup_error(opened, path_is_text, provisioned, provider, e),
            },
    {
        if let Err(e) = opened {
            return Err(e);
        }
        if !path_is_text {
            return Err(
                AnisetteError::InvalidArgument("configuration.configuration_path".to_string()),
            );
        }
        if let Err(e) = provisioned {
            return Err(e);
        }
        match provider {
            Ok(provider) => Ok(AnisetteHeadersProviderRes::local(provider)),
            Err(e) => Err(e),
        }
    }
}

// ---------------------------------------------------------------------------
// Headers
// ---------------------------------------------------------------------------

/// The headers of a machine, and when they were made, in nanoseconds since the Unix epoch.
#[derive(Debug, Clone)]
pub struct AnisetteData {
    pub base_headers: Table<String, String>,
    pub generated_at: u128,
    pub config: AnisetteConfiguration,
}

/// The content of headers.
pub type HeadersModel = Seq<(Seq<char>, Seq<char>)>;

/// `headers` without the one with the given name.
pub open spec fn without_header(headers: HeadersModel, name: Seq<char>) -> HeadersModel {
    let i = slot(headers, name, 0);
    if i < headers.len() {
        headers.remove(i)
    } else {
        headers
    }
}

/// The index of the third `<`, or the length.
pub open spec fn third_bracket(v: Seq<char>) -> int {
    let first = index_or_len(v, '<', 0);
    let second = index_or_len(v, '<', first + 1);
    index_or_len(v, '<', second + 1)
}

/// What stands behind the third `<`, up to the next bracket.
pub open spec fn third_part(v: Seq<char>) -> Seq<char> {
    let start = third_bracket(v) + 1;
    let open = index_or_len(v, '<', start);
    let close = index_or_len(v, '>', start);
    v.subrange(
        start,
        if open < close {
            open
        } else {
            close
        },
    )
}

/// There are three opening brackets.
pub open spec fn has_three_parts(v: Seq<char>) -> bool {
    third_bracket(v) < v.len()
}

/// Client information with its third part replaced by the accepted client.
pub open spec fn accepted_info(v: Seq<char>) -> Seq<char> {
    replaced(v, third_part(v), AUTHKIT_CLIENT_INFO@)
}

/// The name of the header with client information.
pub const CLIENT_INFO_NAME: &'static str = "X-Mme-Client-Info";

/// Headers with those on the app.
pub open spec fn with_app_info(headers: HeadersModel) -> HeadersModel {
    stored(
        stored(headers, "X-Apple-App-Info"@, "com.apple.gs.xcode.auth"@),
        "X-Xcode-Version"@,
        "11.2 (11B41)"@,
    )
}

/// Headers with those of the client's data.
pub open spec fn with_client_data(headers: HeadersModel) -> HeadersModel {
    let h = stored(headers, "bootstrap"@, "true"@);
    let h = stored(h, "icscrec"@, "true"@);
    let h = stored(h, "loc"@, "en_GB"@);
    let h = stored(h, "pbe"@, "false"@);
    let h = stored(h, "prkgen"@, "true"@);
    stored(h, "svct"@, "iCloud"@)
}

/// The headers of a request. Where client information is asked for and there is none, nothing is
/// added at all.
pub open spec fn headers_for(
    base: HeadersModel,
    cpd: bool,
    client_info: bool,
    app_info: bool,
) -> HeadersModel {
    let plain = without_header(base, CLIENT_INFO_NAME@);
    let info = held(base, CLIENT_INFO_NAME@);
    if client_info && info is None {
        plain
    } else {
        let h = if client_info {
            stored(plain, CLIENT_INFO_NAME@, accepted_info(info->0))
        } else {
            plain
        };
        let h = if app_info {
            with_app_info(h)
        } else {
            h
        };
        if cpd {
            with_client_data(h)
        } else {
            h
        }
    }
}

/// The index of the first of `c` at or after `from`, or the length.
fn index_of_char(chars: &Vec<char>, c: char, from: usize) -> (r: usize)
    ensures
        r == index_or_len(chars@, c, from as int),
        from <= chars@.len() ==> r <= chars@.len(),
        from <= r,
{
    let n: usize = chars.len();
    let mut i: usize = from;
    while i < n && chars[i] != c
        invariant
            n == chars@.len(),
            from <= i,
            from <= n ==> i <= n,
            index_or_len(chars@, c, from as int) == index_or_len(chars@, c, i as int),
        decreases n - i,
    {
        i += 1;
    }
    i
}

fn accept_info(info: &str) -> (r: String)
    requires
        has_three_parts(info@),
    ensures
        r@ == accepted_info(info@),
{
    let chars: Vec<char> = chars_of(info);
    let n: usize = chars.len();
    let first: usize = index_of_char(&chars, '<', 0);
    if first >= n {
        proof {
            assert(third_bracket(info@) >= n);
        }
        return info.to_string();
    }
    let second: usize = index_of_char(&chars, '<', first + 1);
    if second >= n {
        return info.to_string();
    }
    let third: usize = index_of_char(&chars, '<', second + 1);
    let start: usize = third + 1;
    let open: usize = index_of_char(&chars, '<', start);
    let close: usize = index_of_char(&chars, '>', start);
    let end: usize = if open < close {
        open
    } else {
        close
    };
    let part: String = string_of(&chars, start, end);
    replace(info, part.as_str(), AUTHKIT_CLIENT_INFO)
}

fn put(headers: &mut Table<String, String>, name: &str, value: &str)
    ensures
        final(headers)@ == stored(old(headers)@, name@, value@),
{
    headers.insert(name.to_string(), value.to_string());
}

impl AnisetteData {
    /// The whole seconds since the headers were made.
    pub open spec fn age(self, now: u128) -> int {
        (now - self.generated_at) / 1_000_000_000
    }

    fn seconds_old(&self, now: u128) -> (r: u128)
        requires
            now >= self.generated_at,
        ensures
            r == self.age(now),
    {
        (now - self.generated_at) / 1_000_000_000
    }

    /// Whether the headers are older than a minute.
    pub fn needs_refresh(&self, now: u128) -> (r: bool)
        requires
            now >= self.generated_at,
        ensures
            r == (self.age(now) > 60),
    {
        self.seconds_old(now) > 60
    }

    /// Whether the headers are younger than a minute and a half.
    pub fn is_valid(&self, now: u128) -> (r: bool)
        requires
            now >= self.generated_at,
        ensures
            r == (self.age(now) < 90),
    {
        self.seconds_old(now) < 90
    }

    /// The client information, where it is asked for, can be rewritten.
    pub open spec fn can_make(self, client_info: bool) -> bool {
        client_info ==> match held(self.base_headers@, CLIENT_INFO_NAME@) {
            Some(v) => has_three_parts(v),
            None => true,
        }
    }

    /// The headers of a request. They must still be valid.
    pub fn generate_headers(
        &self,
        cpd: bool,
        client_info: bool,
        app_info: bool,
        now: u128,
    ) -> (r: Table<String, String>)
        requires
            now >= self.generated_at,
            self.age(now) < 90,
            self.can_make(client_info),
        ensures
            r@ == headers_for(self.base_headers@, cpd, client_info, app_info),
    {
        let mut headers: Table<String, String> = self.base_copy();
        if client_info {
            match self.base_headers.get(CLIENT_INFO_NAME) {
                Some(v) => {
                    let info: String = accept_info(v.as_str());
                    put(&mut headers, CLIENT_INFO_NAME, info.as_str());
                },
                None => {
                    return headers;
                },
            }
        }
        if app_info {
            put(&mut headers, "X-Apple-App-Info", "com.apple.gs.xcode.auth");
            put(&mut headers, "X-Xcode-Version", "11.2 (11B41)");
        }
        if cpd {
            put(&mut headers, "bootstrap", "true");
            put(&mut headers, "icscrec", "true");
            put(&mut headers, "loc", "en_GB");
            put(&mut headers, "pbe", "false");
            put(&mut headers, "prkgen", "true");
            put(&mut headers, "svct", "iCloud");
        }
        headers
    }

    fn base_copy(&self) -> (r: Table<String, String>)
        ensures
            r@ == without_header(self.base_headers@, CLIENT_INFO_NAME@),
    {
        let ghost base = self.base_headers@;
        let skip: usize = self.base_headers.index_of(&CLIENT_INFO_NAME.to_string());
        let mut entries: Vec<(String, String)> = Vec::new();
        let mut i: usize = 0;
        let source: &Vec<(String, String)> = &self.base_headers.entries;
        while i < source.len()
            invariant
                i <= source@.len(),
                entries@.len() == if i <= skip {
                    i as int
                } else {
                    i - 1
                },
                forall|j: int|
                    0 <= j < entries@.len() ==> #[trigger] entries@[j] == if j < skip {
                        source@[j]
                    } else {
                        source@[j + 1]
                    },
            decreases source@.len() - i,
        {
            if i != skip {
                entries.push((source[i].0.clone(), source[i].1.clone()));
            }
            i += 1;
        }
        let r: Table<String, String> = Table { entries };
        proof {
            assert(r@ =~= without_header(base, CLIENT_INFO_NAME@));
        }
        r
    }

    /// The headers of a request as a dictionary.
    pub fn to_plist(&self, cpd: bool, client_info: bool, app_info: bool, now: u128) -> (r:
        PlistDictionary)
        requires
            now >= self.generated_at,
            self.age(now) < 90,
            self.can_make(client_info),
        ensures
            r@ == headers_dictionary(
                headers_for(self.base_headers@, cpd, client_info, app_info),
                headers_for(self.base_headers@, cpd, client_info, app_info).len() as int,
            ),
    {
        let headers: Table<String, String> = self.generate_headers(
            cpd,
            client_info,
            app_info,
            now,
        );
        let ghost model = headers@;
        let mut r: PlistDictionary = PlistDictionary::new();
        let mut i: usize = 0;
        while i < headers.entries.len()
            invariant
                i <= headers.entries@.len(),
                model == headers@,
                r@ == headers_dictionary(model, i as int),
            decreases headers.entries@.len() - i,
        {
            let entry: &(String, String) = &headers.entries[i];
            proof {
                assert(model[i as int] == (entry.0@, entry.1@));
            }
            r.insert(entry.0.clone(), PlistValue::Text(entry.1.clone()));
            i += 1;
        }
        proof {
            assert(model.len() == headers.entries@.len());
        }
        r
    }

    /// The value of one of all headers, in lower case; the name is compared in lower case too.
    pub fn get_header(&self, header: &str, now: u128) -> (r: Result<String, CoreError>)
        requires
            now >= self.generated_at,
            self.age(now) < 90,
            self.can_make(true),
        ensures
            match (r, lower_header(
                headers_for(self.base_headers@, true, true, true),
                headers_for(self.base_headers@, true, true, true).len() as int,
                unicode_lower(header@),
            )) {
                (Ok(v), Some(value)) => v@ == value,
                (Err(e), None) => e is DeveloperSessionRequestFailed,
                _ => false,
            },
    {
        let headers: Table<String, String> = self.generate_headers(true, true, true, now);
        let ghost model = headers@;
        let name: String = unicode_lowercase(header);
        let mut found: Option<String> = None;
        let mut i: usize = 0;
        while i < headers.entries.len()
            invariant
                i <= headers.entries@.len(),
                model == headers@,
                name@ == unicode_lower(header@),
                crate::text::opt_text(found) == lower_header(model, i as int, name@),
            decreases headers.entries@.len() - i,
        {
            let entry: &(String, String) = &headers.entries[i];
            proof {
                assert(model[i as int] == (entry.0@, entry.1@));
            }
            if same_text(unicode_lowercase(entry.0.as_str()).as_str(), name.as_str()) {
                found = Some(unicode_lowercase(entry.1.as_str()));
            }
            i += 1;
        }
        proof {
            assert(model.len() == headers.entries@.len());
        }
        match found {
            Some(v) => Ok(v),
            None => Err(CoreError::DeveloperSessionRequestFailed),
        }
    }
}

/// The first `n` headers as a dictionary.
pub open spec fn headers_dictionary(headers: HeadersModel, n: int) -> Seq<(Seq<char>, PlistModel)>
    decreases n,
{
    if n <= 0 {
        seq![]
    } else {
        with_entry(
            headers_dictionary(headers, n - 1),
            headers[n - 1].0,
            PlistModel::Text(headers[n - 1].1),
        )
    }
}

/// The value, in lower case, of the last of the first `n` headers whose name is `name` in lower
/// case.
pub open spec fn lower_header(headers: HeadersModel, n: int, name: Seq<char>) -> Option<Seq<char>>
    decreases n,
{
    if n <= 0 {
        None
    } else if unicode_lower(headers[n - 1].0) == name {
        Some(unicode_lower(headers[n - 1].1))
    } else {
        lower_header(headers, n - 1, name)
    }
}

/// Headers that are no longer valid have needed a refresh for a while.
pub proof fn law_refresh_comes_in_time(data: AnisetteData, now: u128)
    requires
        now >= data.generated_at,
        data.age(now) >= 90,
    ensures
        data.age(now) > 60,
{
}

/// The identifiers of the app are never rewritten: they are as they are asked for, whatever the
/// machine says of itself.
pub proof fn law_app_identifiers_are_kept(base: HeadersModel, cpd: bool, client_info: bool)
    requires
        client_info ==> held(base, CLIENT_INFO_NAME@) is Some,
    ensures
        held(headers_for(base, cpd, client_info, true), "X-Apple-App-Info"@) == Some(
            "com.apple.gs.xcode.auth"@,
        ),
        held(headers_for(base, cpd, client_info, true), "X-Xcode-Version"@) == Some(
            "11.2 (11B41)"@,
        ),
{
    let plain = without_header(base, CLIENT_INFO_NAME@);
    let info = held(base, CLIENT_INFO_NAME@);
    let h0 = if client_info {
        stored(plain, CLIENT_INFO_NAME@, accepted_info(info->0))
    } else {
        plain
    };
    let a = "X-Apple-App-Info"@;
    let x = "X-Xcode-Version"@;
    reveal_strlit("X-Apple-App-Info");
    reveal_strlit("X-Xcode-Version");
    reveal_strlit("bootstrap");
    reveal_strlit("icscrec");
    reveal_strlit("loc");
    reveal_strlit("pbe");
    reveal_strlit("prkgen");
    reveal_strlit("svct");
    assert(a.len() == 16 && x.len() == 15);
    let h1 = stored(h0, a, "com.apple.gs.xcode.auth"@);
    law_stored_then_held(h0, a, "com.apple.gs.xcode.auth"@, a);
    let h2 = stored(h1, x, "11.2 (11B41)"@);
    law_stored_then_held(h1, x, "11.2 (11B41)"@, x);
    law_stored_then_held(h1, x, "11.2 (11B41)"@, a);
    if cpd {
        let c1 = stored(h2, "bootstrap"@, "true"@);
        lemma_kept(h2, "bootstrap"@, "true"@, a, x);
        let c2 = stored(c1, "icscrec"@, "true"@);
        lemma_kept(c1, "icscrec"@, "true"@, a, x);
        let c3 = stored(c2, "loc"@, "en_GB"@);
        lemma_kept(c2, "loc"@, "en_GB"@, a, x);
        let c4 = stored(c3, "pbe"@, "false"@);
        lemma_kept(c3, "pbe"@, "false"@, a, x);
        let c5 = stored(c4, "prkgen"@, "true"@);
        lemma_kept(c4, "prkgen"@, "true"@, a, x);
        lemma_kept(c5, "svct"@, "iCloud"@, a, x);
    }
}

proof fn lemma_kept(
    headers: HeadersModel,
    name: Seq<char>,
    value: Seq<char>,
    a: Seq<char>,
    b: Seq<char>,
)
    requires
        name.len() < 15,
        a.len() >= 15,
        b.len() >= 15,
    ensures
        held(stored(headers, name, value), a) == held(headers, a),
        held(stored(headers, name, value), b) == held(headers, b),
{
    law_stored_then_held(headers, name, value, a);
    law_stored_then_held(headers, name, value, b);
}

/// Headers other than those that are made for a request are those that were given.
pub proof fn law_other_headers_are_kept(
    base: HeadersModel,
    cpd: bool,
    client_info: bool,
    app_info: bool,
    name: Seq<char>,
)
    requires
        name != "X-Mme-Client-Info"@,
        app_info ==> name != "X-Apple-App-Info"@ && name != "X-Xcode-Version"@,
        cpd ==> name != "bootstrap"@ && name != "icscrec"@ && name != "loc"@ && name != "pbe"@ && name
            != "prkgen"@ && name != "svct"@,
    ensures
        held(headers_for(base, cpd, client_info, app_info), name) == held(base, name),
{
    let plain = without_header(base, CLIENT_INFO_NAME@);
    lemma_without_header(base, CLIENT_INFO_NAME@, name);
    let info = held(base, CLIENT_INFO_NAME@);
    law_stored_then_held(plain, CLIENT_INFO_NAME@, accepted_info(info->0), name);
    let h0 = if client_info {
        stored(plain, CLIENT_INFO_NAME@, accepted_info(info->0))
    } else {
        plain
    };
    let a = "X-Apple-App-Info"@;
    let x = "X-Xcode-Version"@;
    let h1 = stored(h0, a, "com.apple.gs.xcode.auth"@);
    if app_info {
        law_stored_then_held(h0, a, "com.apple.gs.xcode.auth"@, name);
        law_stored_then_held(h1, x, "11.2 (11B41)"@, name);
    }
    let h2 = if app_info {
        stored(h1, x, "11.2 (11B41)"@)
    } else {
        h0
    };
    if cpd {
        let c1 = stored(h2, "bootstrap"@, "true"@);
        law_stored_then_held(h2, "bootstrap"@, "true"@, name);
        let c2 = stored(c1, "icscrec"@, "true"@);
        law_stored_then_held(c1, "icscrec"@, "true"@, name);
        let c3 = stored(c2, "loc"@, "en_GB"@);
        law_stored_then_held(c2, "loc"@, "en_GB"@, name);
        let c4 = stored(c3, "pbe"@, "false"@);
        law_stored_then_held(c3, "pbe"@, "false"@, name);
        let c5 = stored(c4, "prkgen"@, "true"@);
        law_stored_then_held(c4, "prkgen"@, "true"@, name);
        law_stored_then_held(c5, "svct"@, "iCloud"@, name);
    }
}

proof fn lemma_without_header(headers: HeadersModel, name: Seq<char>, other: Seq<char>)
    requires
        other != name,
    ensures
        held(without_header(headers, name), other) == held(headers, other),
{
    let i = slot(headers, name, 0);
    let k = slot(headers, other, 0);
    let rest = without_header(headers, name);
    crate::table::lemma_slot(headers, name, 0);
    crate::table::lemma_slot(headers, other, 0);
    if i < headers.len() {
        if k < i {
            assert forall|j: int| 0 <= j < k implies (#[trigger] rest[j]).0 != other by {
                assert(rest[j] == headers[j]);
            }
            crate::table::lemma_slot_is(rest, other, 0, k);
        } else {
            assert forall|j: int| 0 <= j < k - 1 implies (#[trigger] rest[j]).0 != other by {
                if j < i {
                    assert(rest[j] == headers[j]);
                } else {
                    assert(rest[j] == headers[j + 1]);
                }
            }
            if k < headers.len() {
                assert(rest[k - 1] == headers[k]);
            }
            crate::table::lemma_slot_is(rest, other, 0, k - 1);
        }
    }
}

/// A request that tells of the client has the fields that tell of it, and one that does not name the
/// client has no client in its headers.
pub proof fn law_client_fields_are_set(base: HeadersModel, client_info: bool, app_info: bool)
    requires
        client_info ==> held(base, CLIENT_INFO_NAME@) is Some,
    ensures
        ({
            let h = headers_for(base, true, client_info, app_info);
            &&& held(h, "bootstrap"@) == Some("true"@)
            &&& held(h, "icscrec"@) == Some("true"@)
            &&& held(h, "loc"@) == Some("en_GB"@)
            &&& held(h, "pbe"@) == Some("false"@)
            &&& held(h, "prkgen"@) == Some("true"@)
            &&& held(h, "svct"@) == Some("iCloud"@)
        }),
{
    reveal_strlit("bootstrap");
    reveal_strlit("icscrec");
    reveal_strlit("loc");
    reveal_strlit("pbe");
    reveal_strlit("prkgen");
    reveal_strlit("svct");
    let plain = without_header(base, CLIENT_INFO_NAME@);
    let info = held(base, CLIENT_INFO_NAME@);
    let h0 = if client_info {
        stored(plain, CLIENT_INFO_NAME@, accepted_info(info->0))
    } else {
        plain
    };
    let h = if app_info {
        with_app_info(h0)
    } else {
        h0
    };
    let names = seq!["bootstrap"@, "icscrec"@, "loc"@, "pbe"@, "prkgen"@, "svct"@];
    assert("bootstrap"@.len() == 9 && "icscrec"@.len() == 7 && "loc"@.len() == 3 && "pbe"@.len() == 3
        && "prkgen"@.len() == 6 && "svct"@.len() == 4);
    assert("loc"@[0] == 'l' && "pbe"@[0] == 'p');
    let c1 = stored(h, "bootstrap"@, "true"@);
    let c2 = stored(c1, "icscrec"@, "true"@);
    let c3 = stored(c2, "loc"@, "en_GB"@);
    let c4 = stored(c3, "pbe"@, "false"@);
    let c5 = stored(c4, "prkgen"@, "true"@);
    law_stored_then_held(h, "bootstrap"@, "true"@, "bootstrap"@);
    law_stored_then_held(c1, "icscrec"@, "true"@, "bootstrap"@);
    law_stored_then_held(c2, "loc"@, "en_GB"@, "bootstrap"@);
    law_stored_then_held(c3, "pbe"@, "false"@, "bootstrap"@);
    law_stored_then_held(c4, "prkgen"@, "true"@, "bootstrap"@);
    law_stored_then_held(c5, "svct"@, "iCloud"@, "bootstrap"@);
    law_stored_then_held(c2, "loc"@, "en_GB"@, "icscrec"@);
    law_stored_then_held(c3, "pbe"@, "false"@, "icscrec"@);
    law_stored_then_held(c4, "prkgen"@, "true"@, "icscrec"@);
    law_stored_then_held(c5, "svct"@, "iCloud"@, "icscrec"@);
    law_stored_then_held(c3, "pbe"@, "false"@, "loc"@);
    law_stored_then_held(c4, "prkgen"@, "true"@, "loc"@);
    law_stored_then_held(c5, "svct"@, "iCloud"@, "loc"@);
    law_stored_then_held(c4, "prkgen"@, "true"@, "pbe"@);
    law_stored_then_held(c5, "svct"@, "iCloud"@, "pbe"@);
    law_stored_then_held(c5, "svct"@, "iCloud"@, "prkgen"@);
}

/// The age of the data is counted in whole seconds from when they were made.
pub proof fn law_age_is_counted_in_seconds(data: AnisetteData, seconds: nat, now: u128)
    requires
        now == data.generated_at + seconds * 1_000_000_000,
    ensures
        data.age(now) == seconds,
{
    let s = seconds as int;
    assert((s * 1_000_000_000) / 1_000_000_000 == s) by (nonlinear_arith);
}

/// The headers as a dictionary hold each header under its name, the last of several.
pub proof fn law_headers_become_entries(headers: HeadersModel, n: int)
    requires
        0 < n <= headers.len(),
    ensures
        crate::plist_value::lookup(headers_dictionary(headers, n), headers[n - 1].0) == Some(
            PlistModel::Text(headers[n - 1].1),
        ),
        forall|name: Seq<char>|
            name != headers[n - 1].0 ==> #[trigger] crate::plist_value::lookup(
                headers_dictionary(headers, n),
                name,
            ) == crate::plist_value::lookup(headers_dictionary(headers, n - 1), name),
{
    let before = headers_dictionary(headers, n - 1);
    let (key, value) = (headers[n - 1].0, PlistModel::Text(headers[n - 1].1));
    crate::plist_value::law_write_then_read(before, key, value, key);
    assert forall|name: Seq<char>| name != key implies #[trigger] crate::plist_value::lookup(
        headers_dictionary(headers, n),
        name,
    ) == crate::plist_value::lookup(before, name) by {
        crate::plist_value::law_write_then_read(before, key, value, name);
    }
}

/// A version goes on over letters, digits, dots, hyphens and underscores, and ends at the first other
/// character.
pub proof fn law_version_ends_at_another_character(s: Seq<char>, from: int)
    requires
        0 <= from <= s.len(),
    ensures
        from <= version_end(s, from) <= s.len(),
        forall|i: int|
            from <= i < version_end(s, from) ==> {
                let c = #[trigger] s[i];
                ('a' <= c && c <= 'z') || ('A' <= c && c <= 'Z') || ('0' <= c && c <= '9') || c
                    == '.' || c == '-' || c == '_'
            },
        version_end(s, from) < s.len() ==> {
            let c = s[version_end(s, from)];
            !(('a' <= c && c <= 'z') || ('A' <= c && c <= 'Z') || ('0' <= c && c <= '9') || c == '.'
                || c == '-' || c == '_')
        },
    decreases s.len() - from,
{
    if from < s.len() && version_char(s[from]) {
        law_version_ends_at_another_character(s, from + 1);
    }
}

/// The third part of a client's information in angle brackets is found between them, and the one that is
/// accepted stands in what is made of it.
pub proof fn law_third_part_gives_way(a: Seq<char>, b: Seq<char>, c: Seq<char>)
    requires
        !a.contains('<') && !b.contains('<'),
        !c.contains('<') && !c.contains('>'),
        c.len() > 0,
    ensures
        ({
            let v = seq!['<'] + a + seq!['>', ' ', '<'] + b + seq!['>', ' ', '<'] + c + seq!['>'];
            &&& has_three_parts(v)
            &&& third_part(v) == c
            &&& crate::text::has_text(accepted_info(v), AUTHKIT_CLIENT_INFO@)
        }),
{
    let v = seq!['<'] + a + seq!['>', ' ', '<'] + b + seq!['>', ' ', '<'] + c + seq!['>'];
    let second = a.len() as int + 3;
    let third = second + b.len() as int + 3;
    let close = third + 1 + c.len() as int;
    assert(v[0] == '<');
    assert forall|i: int| 1 <= i < second implies v[i] != '<' by {
        if i <= a.len() {
            assert(v[i] == a[i - 1]);
        }
    }
    assert(v[second] == '<');
    assert forall|i: int| second < i < third implies v[i] != '<' by {
        if i <= second + b.len() {
            assert(v[i] == b[i - second - 1]);
        }
    }
    assert(v[third] == '<');
    assert forall|i: int| third < i < close implies v[i] != '<' && v[i] != '>' by {
        assert(v[i] == c[i - third - 1]);
    }
    assert(v[close] == '>');
    assert(v.len() == close + 1);
    lemma_index_is(v, '<', 0, 0);
    lemma_index_is(v, '<', 1, second);
    lemma_index_is(v, '<', second + 1, third);
    lemma_index_is(v, '<', third + 1, v.len() as int);
    lemma_index_is(v, '>', third + 1, close);
    assert(v.subrange(third + 1, close) =~= c);
    assert(crate::text::occurs_at(v, c, third + 1));
    crate::text::law_text_is_replaced(v, c, AUTHKIT_CLIENT_INFO@);
}

proof fn lemma_index_is(s: Seq<char>, c: char, from: int, at: int)
    requires
        0 <= from <= at <= s.len(),
        forall|i: int| from <= i < at ==> s[i] != c,
        at < s.len() ==> s[at] == c,
    ensures
        index_or_len(s, c, from) == at,
    decreases at - from,
{
    if from < at {
        lemma_index_is(s, c, from + 1, at);
    }
}

/// A header is found whatever the case of its name, and what is found is the value of a header of that
/// name, in small letters.
pub proof fn law_header_is_found_in_any_case(headers: HeadersModel, n: int, name: Seq<char>)
    requires
        0 <= n <= headers.len(),
    ensures
        lower_header(headers, n, name) is Some <==> exists|i: int|
            0 <= i < n && unicode_lower((#[trigger] headers[i]).0) == name,
        lower_header(headers, n, name) matches Some(v) ==> exists|i: int|
            0 <= i < n && unicode_lower((#[trigger] headers[i]).0) == name && v == unicode_lower(
                headers[i].1,
            ) && forall|j: int| i < j < n ==> unicode_lower((#[trigger] headers[j]).0) != name,
    decreases n,
{
    if n > 0 {
        law_header_is_found_in_any_case(headers, n - 1, name);
        if unicode_lower(headers[n - 1].0) == name {
            assert(0 <= n - 1 < n && unicode_lower(headers[n - 1].0) == name);
        } else if lower_header(headers, n - 1, name) is Some {
            let v = lower_header(headers, n - 1, name)->0;
            let i = choose|i: int|
                0 <= i < n - 1 && unicode_lower((#[trigger] headers[i]).0) == name && v
                    == unicode_lower(headers[i].1) && forall|j: int|
                    i < j < n - 1 ==> unicode_lower((#[trigger] headers[j]).0) != name;
            assert(unicode_lower(headers[i].0) == name);
        }
    }
}

/// A client's information has three parts only where it has three opening brackets.
pub proof fn law_three_parts_have_three_brackets(v: Seq<char>) -> (r: (int, int, int))
    ensures
        has_three_parts(v) ==> 0 <= r.0 < r.1 < r.2 < v.len() && v[r.0] == '<' && v[r.1] == '<'
            && v[r.2] == '<',
        !v.contains('<') ==> !has_three_parts(v),
{
    let first = index_or_len(v, '<', 0);
    lemma_index_at(v, '<', 0);
    let second = index_or_len(v, '<', first + 1);
    lemma_index_at(v, '<', first + 1);
    lemma_index_at(v, '<', second + 1);
    (first, second, third_bracket(v))
}

proof fn lemma_index_at(s: Seq<char>, c: char, from: int)
    requires
        0 <= from,
    ensures
        from <= index_or_len(s, c, from),
        index_or_len(s, c, from) < s.len() ==> s[index_or_len(s, c, from)] == c,
    decreases s.len() - from,
{
    if from < s.len() && s[from] != c {
        lemma_index_at(s, c, from + 1);
    }
}

} // verus!
