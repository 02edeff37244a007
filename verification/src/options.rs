//! The settings of a signing run.
use crate::text::{
    ascii_lowercase, chars_of, contains, has_text, is_alnum, join2, join3, join4, lower, opt_text,
    plain_ends, same_text, trim, trimmed,
};
use vstd::prelude::*;

verus! {

// ---------------------------------------------------------------------------
// Tweaks
// ---------------------------------------------------------------------------

#[derive(Debug, Clone, Copy, PartialEq, Eq, Structural)]
pub enum TweakLoader {
    /// The bundled compatibility framework is put into the app and loaded.
    ElleKit,
    /// No loader is put into the app; tweaks are still copied and loaded.
    Nothing,
}

impl Default for TweakLoader {
    fn default() -> (r: TweakLoader)
        ensures
            r == TweakLoader::ElleKit,
    {
        TweakLoader::ElleKit
    }
}

/// A setting as it is compared: trimmed, in lower case.
pub open spec fn setting(value: Seq<char>) -> Seq<char> {
    lower(trimmed(value))
}

fn setting_text(value: &str) -> (r: String)
    ensures
        r@ == setting(value@),
        plain_ends(value@) ==> setting(value@) == lower(value@),
{
    ascii_lowercase(trim(value).as_str())
}

/// The loader that a setting names.
pub open spec fn loader_named(s: Seq<char>) -> Option<TweakLoader> {
    if s == "ellekit"@ {
        Some(TweakLoader::ElleKit)
    } else if s == "none"@ || s == "nothing"@ || s == "direct"@ {
        Some(TweakLoader::Nothing)
    } else {
        None
    }
}

impl TweakLoader {
    pub open spec fn text(self) -> Seq<char> {
        match self {
            TweakLoader::ElleKit => "ellekit"@,
            TweakLoader::Nothing => "none"@,
        }
    }

    pub fn to_text(&self) -> (r: &'static str)
        ensures
            r@ == self.text(),
    {
        match self {
            TweakLoader::ElleKit => "ellekit",
            TweakLoader::Nothing => "none",
        }
    }

    /// Reads a setting, in any case and with white space around it. What is shown is read back.
    pub fn from_text(value: &str) -> (r: Result<TweakLoader, String>)
        ensures
            match r {
                Ok(l) => loader_named(setting(value@)) == Some(l),
                Err(m) => loader_named(setting(value@)) is None && m@
                    == "unsupported tweak loader '"@ + setting(value@)
                    + "', expected one of: ellekit, none"@,
            },
            forall|l: TweakLoader| value@ == #[trigger] l.text() ==> r == Ok::<TweakLoader, String>(l),
    {
        proof {
            reveal_strlit("ellekit");
            reveal_strlit("none");
            assert(lower("ellekit"@) =~= "ellekit"@);
            assert(lower("none"@) =~= "none"@);
            assert("ellekit"@.len() != "none"@.len());
        }
        let s: String = setting_text(value);
        let t: &str = s.as_str();
        if same_text(t, "ellekit") {
            Ok(TweakLoader::ElleKit)
        } else if same_text(t, "none") || same_text(t, "nothing") || same_text(t, "direct") {
            Ok(TweakLoader::Nothing)
        } else {
            Err(join3("unsupported tweak loader '", t, "', expected one of: ellekit, none"))
        }
    }
}

#[derive(Debug, Clone, Copy, PartialEq, Eq, Structural)]
pub enum TweakInjectPath {
    ExecutablePath,
    RPath,
}

impl Default for TweakInjectPath {
    fn default() -> (r: TweakInjectPath)
        ensures
            r == TweakInjectPath::RPath,
    {
        TweakInjectPath::RPath
    }
}

/// The path that a setting names.
pub open spec fn inject_path_named(s: Seq<char>) -> Option<TweakInjectPath> {
    if s == "@rpath"@ || s == "rpath"@ {
        Some(TweakInjectPath::RPath)
    } else if s == "@executable_path"@ || s == "executable"@ || s == "executable_path"@ || s
        == "executable-path"@ || s == "exec"@ {
        Some(TweakInjectPath::ExecutablePath)
    } else {
        None
    }
}

impl TweakInjectPath {
    pub open spec fn text(self) -> Seq<char> {
        match self {
            TweakInjectPath::ExecutablePath => "@executable_path"@,
            TweakInjectPath::RPath => "@rpath"@,
        }
    }

    pub fn token(self) -> (r: &'static str)
        ensures
            r@ == self.text(),
    {
        match self {
            TweakInjectPath::ExecutablePath => "@executable_path",
            TweakInjectPath::RPath => "@rpath",
        }
    }

    pub fn to_text(&self) -> (r: &'static str)
        ensures
            r@ == self.text(),
    {
        self.token()
    }

    /// Reads a setting, in any case and with white space around it. What is shown is read back.
    pub fn from_text(value: &str) -> (r: Result<TweakInjectPath, String>)
        ensures
            match r {
                Ok(p) => inject_path_named(setting(value@)) == Some(p),
                Err(m) => inject_path_named(setting(value@)) is None && m@
                    == "unsupported tweak inject path '"@ + setting(value@)
                    + "', expected @rpath or @executable_path"@,
            },
            forall|p: TweakInjectPath|
                value@ == #[trigger] p.text() ==> r == Ok::<TweakInjectPath, String>(p),
    {
        proof {
            reveal_strlit("@rpath");
            reveal_strlit("rpath");
            reveal_strlit("@executable_path");
            assert(lower("@rpath"@) =~= "@rpath"@);
            assert(lower("@executable_path"@) =~= "@executable_path"@);
            assert("@rpath"@.len() != "@executable_path"@.len());
            assert("rpath"@.len() != "@executable_path"@.len());
        }
        let s: String = setting_text(value);
        let t: &str = s.as_str();
        if same_text(t, "@rpath") || same_text(t, "rpath") {
            Ok(TweakInjectPath::RPath)
        } else if same_text(t, "@executable_path") || same_text(t, "executable") || same_text(
            t,
            "executable_path",
        ) || same_text(t, "executable-path") || same_text(t, "exec") {
            Ok(TweakInjectPath::ExecutablePath)
        } else {
            Err(
                join3(
                    "unsupported tweak inject path '",
                    t,
                    "', expected @rpath or @executable_path",
                ),
            )
        }
    }
}

#[derive(Debug, Clone, Copy, PartialEq, Eq, Structural)]
pub enum TweakInjectFolder {
    Root,
    Frameworks,
}

impl Default for TweakInjectFolder {
    fn default() -> (r: TweakInjectFolder)
        ensures
            r == TweakInjectFolder::Root,
    {
        TweakInjectFolder::Root
    }
}

/// The folder that a setting names.
pub open spec fn inject_folder_named(s: Seq<char>) -> Option<TweakInjectFolder> {
    if s == ""@ || s == "/"@ || s == "."@ || s == "root"@ {
        Some(TweakInjectFolder::Root)
    } else if s == "framework"@ || s == "frameworks"@ || s == "frameworks/"@ || s == "/frameworks"@
        || s == "/frameworks/"@ {
        Some(TweakInjectFolder::Frameworks)
    } else {
        None
    }
}

impl TweakInjectFolder {
    pub open spec fn text(self) -> Seq<char> {
        match self {
            TweakInjectFolder::Root => "/"@,
            TweakInjectFolder::Frameworks => "Frameworks/"@,
        }
    }

    /// The folder's part of a load path.
    pub open spec fn component(self) -> Seq<char> {
        match self {
            TweakInjectFolder::Root => ""@,
            TweakInjectFolder::Frameworks => "Frameworks/"@,
        }
    }

    pub fn load_path_component(self) -> (r: &'static str)
        ensures
            r@ == self.component(),
    {
        match self {
            TweakInjectFolder::Root => "",
            TweakInjectFolder::Frameworks => "Frameworks/",
        }
    }

    pub fn to_text(&self) -> (r: &'static str)
        ensures
            r@ == self.text(),
    {
        match self {
            TweakInjectFolder::Root => "/",
            TweakInjectFolder::Frameworks => "Frameworks/",
        }
    }

    /// Reads a setting, in any case and with white space around it. What is shown is read back.
    pub fn from_text(value: &str) -> (r: Result<TweakInjectFolder, String>)
        ensures
            match r {
                Ok(f) => inject_folder_named(setting(value@)) == Some(f),
                Err(m) => inject_folder_named(setting(value@)) is None && m@
                    == "unsupported tweak inject folder '"@ + setting(value@)
                    + "', expected / or Frameworks/"@,
            },
            forall|f: TweakInjectFolder|
                value@ == #[trigger] f.text() ==> r == Ok::<TweakInjectFolder, String>(f),
    {
        proof {
            reveal_strlit("");
            reveal_strlit("/");
            reveal_strlit(".");
            reveal_strlit("root");
            reveal_strlit("Frameworks/");
            reveal_strlit("frameworks/");
            assert(lower("/"@) =~= "/"@);
            assert(lower("Frameworks/"@) =~= "frameworks/"@);
            assert("/"@.len() != "Frameworks/"@.len());
            assert("frameworks/"@.len() == 11);
        }
        let s: String = setting_text(value);
        let t: &str = s.as_str();
        if same_text(t, "") || same_text(t, "/") || same_text(t, ".") || same_text(t, "root") {
            Ok(TweakInjectFolder::Root)
        } else if same_text(t, "framework") || same_text(t, "frameworks") || same_text(
            t,
            "frameworks/",
        ) || same_text(t, "/frameworks") || same_text(t, "/frameworks/") {
            Ok(TweakInjectFolder::Frameworks)
        } else {
            Err(
                join3(
                    "unsupported tweak inject folder '",
                    t,
                    "', expected / or Frameworks/",
                ),
            )
        }
    }
}

#[derive(Debug, Clone, Copy, PartialEq, Eq, Structural)]
pub enum TweakInjection {
    /// Everything goes into `Frameworks` and is loaded through the run path by its name.
    Legacy,
    /// The path and the folder are chosen.
    Custom { path: TweakInjectPath, folder: TweakInjectFolder },
}

impl Default for TweakInjection {
    fn default() -> (r: TweakInjection)
        ensures
            r == TweakInjection::Legacy,
    {
        TweakInjection::Legacy
    }
}

impl TweakInjection {
    /// What stands before a name in a load path.
    pub open spec fn load_prefix(self) -> Seq<char> {
        match self {
            TweakInjection::Legacy => "@rpath/"@,
            TweakInjection::Custom { path, folder } => path.text() + "/"@ + folder.component(),
        }
    }

    pub fn custom(path: TweakInjectPath, folder: TweakInjectFolder) -> (r: TweakInjection)
        ensures
            r == (TweakInjection::Custom { path, folder }),
    {
        TweakInjection::Custom { path, folder }
    }

    /// The directory that tweaks are copied into.
    pub fn destination_dir(self, app_bundle: &str) -> (r: String)
        ensures
            r@ == match self {
                TweakInjection::Custom { folder: TweakInjectFolder::Root, .. } => app_bundle@,
                _ => crate::paths::path_join(app_bundle@, "Frameworks"@),
            },
    {
        match self {
            TweakInjection::Custom { folder: TweakInjectFolder::Root, .. } => app_bundle.to_string(),
            _ => crate::paths::join_path(app_bundle, "Frameworks"),
        }
    }

    fn prefix(self) -> (r: String)
        ensures
            r@ == self.load_prefix(),
    {
        match self {
            TweakInjection::Legacy => "@rpath/".to_string(),
            TweakInjection::Custom { path, folder } => join3(
                path.token(),
                "/",
                folder.load_path_component(),
            ),
        }
    }

    pub fn dylib_load_path(self, file_name: &str) -> (r: String)
        ensures
            r@ == self.load_prefix() + file_name@,
    {
        join2(self.prefix().as_str(), file_name)
    }

    pub fn framework_load_path(self, framework_name: &str, executable_name: &str) -> (r: String)
        ensures
            r@ == self.load_prefix() + framework_name@ + "/"@ + executable_name@,
    {
        join4(self.prefix().as_str(), framework_name, "/", executable_name)
    }

    /// The run path that the app needs for what is loaded.
    pub fn required_rpath(self) -> (r: Option<&'static str>)
        ensures
            match r {
                Some(p) => self matches TweakInjection::Custom { path, .. } && path
                    == TweakInjectPath::RPath && p@ == "@executable_path"@,
                None => !(self matches TweakInjection::Custom { path, .. } && path
                    == TweakInjectPath::RPath),
            },
    {
        match self {
            TweakInjection::Custom { path: TweakInjectPath::RPath, .. } => Some("@executable_path"),
            _ => None,
        }
    }
}

// ---------------------------------------------------------------------------
// Modes
// ---------------------------------------------------------------------------

#[derive(Debug, Clone, Copy, PartialEq, Eq, Structural)]
pub enum SignerInstallMode {
    Install,
    Export,
}

impl Default for SignerInstallMode {
    fn default() -> (r: SignerInstallMode)
        ensures
            r == SignerInstallMode::Install,
    {
        SignerInstallMode::Install
    }
}

impl SignerInstallMode {
    pub fn to_text(&self) -> (r: &'static str)
        ensures
            r@ == match self {
                SignerInstallMode::Install => "Install"@,
                SignerInstallMode::Export => "Export"@,
            },
    {
        match self {
            SignerInstallMode::Install => "Install",
            SignerInstallMode::Export => "Export",
        }
    }
}

#[derive(Debug, Clone, Copy, PartialEq, Eq, Structural)]
pub enum SignerMode {
    Pem,
    Adhoc,
    NoModify,
}

impl Default for SignerMode {
    fn default() -> (r: SignerMode)
        ensures
            r == SignerMode::Pem,
    {
        SignerMode::Pem
    }
}

impl SignerMode {
    pub fn to_text(&self) -> (r: &'static str)
        ensures
            r@ == match self {
                SignerMode::Pem => "Apple ID"@,
                SignerMode::Adhoc => "Adhoc"@,
                SignerMode::NoModify => "No Modify"@,
            },
    {
        match self {
            SignerMode::Pem => "Apple ID",
            SignerMode::Adhoc => "Adhoc",
            SignerMode::NoModify => "No Modify",
        }
    }
}

// ---------------------------------------------------------------------------
// Apps
// ---------------------------------------------------------------------------

/// The apps that are treated on their own.
#[derive(Debug, Clone, Copy, PartialEq, Eq, Structural)]
pub enum SignerApp {
    Default,
    Antrag,
    Feather,
    Protokolle,
    AltStore,
    SideStore,
    LiveContainer,
    LiveContainerAndSideStore,
    StikDebug,
    SparseBox,
    EnsWilde,
    ByeTunes,
    StikStore,
    Reynard,
    Ksign,
    AutoCapture,
}

/// Bundle identifiers and the apps that they stand for.
pub open spec fn known_ids() -> Seq<(Seq<char>, SignerApp)> {
    seq![
        ("com.kdt.livecontainer"@, SignerApp::LiveContainer),
        ("thewonderofyou.syslog"@, SignerApp::Protokolle),
        ("thewonderofyou.antrag2"@, SignerApp::Antrag),
        ("thewonderofyou.Feather"@, SignerApp::Feather),
        ("com.SideStore.SideStore"@, SignerApp::SideStore),
        ("com.rileytestut.AltStore"@, SignerApp::AltStore),
        ("com.stik.sj"@, SignerApp::StikDebug),
        ("com.kdt.SparseBox"@, SignerApp::SparseBox),
        ("com.yangjiii.EnsWilde"@, SignerApp::EnsWilde),
        ("com.EduAlexxis.MusicManager"@, SignerApp::ByeTunes),
        ("me.stik.store"@, SignerApp::StikStore),
        ("app.stik.store"@, SignerApp::StikStore),
        ("com.minh-ton.Reynard"@, SignerApp::Reynard),
        ("nya.asami.ksign"@, SignerApp::Ksign),
        ("com.halfeatentoast.devcapture"@, SignerApp::AutoCapture),
    ]
}

/// Names and the apps that they stand for.
pub open spec fn known_names() -> Seq<(Seq<char>, SignerApp)> {
    seq![
        ("livecontainer"@, SignerApp::LiveContainer),
        ("sidestore"@, SignerApp::SideStore),
        ("altstore"@, SignerApp::AltStore),
        ("feather"@, SignerApp::Feather),
        ("antrag"@, SignerApp::Antrag),
        ("protokolle"@, SignerApp::Protokolle),
        ("stikdebug"@, SignerApp::StikDebug),
        ("sparsebox"@, SignerApp::SparseBox),
        ("enswilde"@, SignerApp::EnsWilde),
        ("byetunes"@, SignerApp::ByeTunes),
        ("stikstore"@, SignerApp::StikStore),
        ("reynard"@, SignerApp::Reynard),
        ("ksign"@, SignerApp::Ksign),
        ("dev auto capture"@, SignerApp::AutoCapture),
    ]
}

/// The app of the first entry, from index `from` on, that stands in `text`.
pub open spec fn first_known(
    known: Seq<(Seq<char>, SignerApp)>,
    text: Seq<char>,
    from: int,
) -> SignerApp
    decreases known.len() - from,
{
    if from >= known.len() {
        SignerApp::Default
    } else if has_text(text, known[from].0) {
        known[from].1
    } else {
        first_known(known, text, from + 1)
    }
}

/// The letters and digits among the first `n` characters, in lower case.
pub open spec fn plain_letters(s: Seq<char>, n: int) -> Seq<char>
    decreases n,
{
    if n <= 0 {
        seq![]
    } else {
        let head = plain_letters(s, n - 1);
        let c = lower(s)[n - 1];
        if is_alnum(c) {
            head.push(c)
        } else {
            head
        }
    }
}

/// The app that a bundle identifier stands for.
pub open spec fn app_by_id(identifier: Option<Seq<char>>) -> SignerApp {
    match identifier {
        Some(id) => first_known(known_ids(), id, 0),
        None => SignerApp::Default,
    }
}

/// The app that a bundle identifier stands for, else the one that a name stands for.
pub open spec fn app_by_id_or_name(
    identifier: Option<Seq<char>>,
    name: Option<Seq<char>>,
) -> SignerApp {
    if app_by_id(identifier) != SignerApp::Default {
        app_by_id(identifier)
    } else {
        match name {
            Some(n) => first_known(known_names(), plain_letters(n, n.len() as int), 0),
            None => SignerApp::Default,
        }
    }
}

/// The contents of a list of known texts.
pub open spec fn known_list(v: Seq<(&'static str, SignerApp)>) -> Seq<(Seq<char>, SignerApp)> {
    v.map_values(|e: (&'static str, SignerApp)| (e.0@, e.1))
}

fn find_known(known: &Vec<(&'static str, SignerApp)>, text: &str) -> (r: SignerApp)
    ensures
        r == first_known(known_list(known@), text@, 0),
{
    let ghost list = known_list(known@);
    let mut i: usize = 0;
    while i < known.len()
        invariant
            i <= known@.len(),
            list == known_list(known@),
            first_known(list, text@, 0) == first_known(list, text@, i as int),
        decreases known@.len() - i,
    {
        proof {
            assert(list[i as int] == (known@[i as int].0@, known@[i as int].1));
        }
        if contains(text, known[i].0) {
            return known[i].1;
        }
        i += 1;
    }
    SignerApp::Default
}

fn letters_of(name: &str) -> (r: String)
    ensures
        r@ == plain_letters(name@, name@.len() as int),
{
    let chars: Vec<char> = chars_of(ascii_lowercase(name).as_str());
    let mut r: String = String::new();
    let mut i: usize = 0;
    proof {
        assert(r@ =~= plain_letters(name@, 0));
        assert(chars@.len() == name@.len());
    }
    while i < chars.len()
        invariant
            chars@ == lower(name@),
            i <= chars@.len(),
            r@ == plain_letters(name@, i as int),
        decreases chars@.len() - i,
    {
        let c: char = chars[i];
        if ('A' <= c && c <= 'Z') || ('a' <= c && c <= 'z') || ('0' <= c && c <= '9') {
            r.push(c);
        }
        i += 1;
    }
    r
}

impl SignerApp {
    /// The app as it is shown.
    pub open spec fn text(self) -> Seq<char> {
        match self {
            SignerApp::Default => "Default"@,
            SignerApp::Antrag => "Antrag"@,
            SignerApp::Feather => "Feather"@,
            SignerApp::Protokolle => "Protokolle"@,
            SignerApp::AltStore => "AltStore"@,
            SignerApp::SideStore => "SideStore"@,
            SignerApp::LiveContainer | SignerApp::LiveContainerAndSideStore => "LiveContainer"@,
            SignerApp::StikDebug => "StikDebug"@,
            SignerApp::SparseBox => "SparseBox"@,
            SignerApp::EnsWilde => "EnsWilde"@,
            SignerApp::ByeTunes => "ByeTunes"@,
            SignerApp::StikStore => "StikStore"@,
            SignerApp::Reynard => "Reynard"@,
            SignerApp::Ksign => "Ksign"@,
            SignerApp::AutoCapture => "Dev Auto Capture"@,
        }
    }

    pub fn to_text(&self) -> (r: &'static str)
        ensures
            r@ == self.text(),
    {
        match self {
            SignerApp::Default => "Default",
            SignerApp::Antrag => "Antrag",
            SignerApp::Feather => "Feather",
            SignerApp::Protokolle => "Protokolle",
            SignerApp::AltStore => "AltStore",
            SignerApp::SideStore => "SideStore",
            SignerApp::LiveContainer | SignerApp::LiveContainerAndSideStore => "LiveContainer",
            SignerApp::StikDebug => "StikDebug",
            SignerApp::SparseBox => "SparseBox",
            SignerApp::EnsWilde => "EnsWilde",
            SignerApp::ByeTunes => "ByeTunes",
            SignerApp::StikStore => "StikStore",
            SignerApp::Reynard => "Reynard",
            SignerApp::Ksign => "Ksign",
            SignerApp::AutoCapture => "Dev Auto Capture",
        }
    }

    pub fn from_bundle_identifier(identifier: Option<&str>) -> (r: SignerApp)
        ensures
            r == app_by_id(crate::platform::opt_str(identifier)),
    {
        let id: &str = match identifier {
            Some(id) => id,
            None => {
                return SignerApp::Default;
            },
        };
        let known: Vec<(&'static str, SignerApp)> = vec![
            ("com.kdt.livecontainer", SignerApp::LiveContainer),
            ("thewonderofyou.syslog", SignerApp::Protokolle),
            ("thewonderofyou.antrag2", SignerApp::Antrag),
            ("thewonderofyou.Feather", SignerApp::Feather),
            ("com.SideStore.SideStore", SignerApp::SideStore),
            ("com.rileytestut.AltStore", SignerApp::AltStore),
            ("com.stik.sj", SignerApp::StikDebug),
            ("com.kdt.SparseBox", SignerApp::SparseBox),
            ("com.yangjiii.EnsWilde", SignerApp::EnsWilde),
            ("com.EduAlexxis.MusicManager", SignerApp::ByeTunes),
            ("me.stik.store", SignerApp::StikStore),
            ("app.stik.store", SignerApp::StikStore),
            ("com.minh-ton.Reynard", SignerApp::Reynard),
            ("nya.asami.ksign", SignerApp::Ksign),
            ("com.halfeatentoast.devcapture", SignerApp::AutoCapture),
        ];
        proof {
            assert(known_list(known@) =~= known_ids());
        }
        find_known(&known, id)
    }

    pub fn from_bundle_identifier_or_name(identifier: Option<&str>, name: Option<&str>) -> (r:
        SignerApp)
        ensures
            r == app_by_id_or_name(
                crate::platform::opt_str(identifier),
                crate::platform::opt_str(name),
            ),
    {
        let app: SignerApp = SignerApp::from_bundle_identifier(identifier);
        if app != SignerApp::Default {
            return app;
        }
        let name: &str = match name {
            Some(name) => name,
            None => {
                return SignerApp::Default;
            },
        };
        let known: Vec<(&'static str, SignerApp)> = vec![
            ("livecontainer", SignerApp::LiveContainer),
            ("sidestore", SignerApp::SideStore),
            ("altstore", SignerApp::AltStore),
            ("feather", SignerApp::Feather),
            ("antrag", SignerApp::Antrag),
            ("protokolle", SignerApp::Protokolle),
            ("stikdebug", SignerApp::StikDebug),
            ("sparsebox", SignerApp::SparseBox),
            ("enswilde", SignerApp::EnsWilde),
            ("byetunes", SignerApp::ByeTunes),
            ("stikstore", SignerApp::StikStore),
            ("reynard", SignerApp::Reynard),
            ("ksign", SignerApp::Ksign),
            ("dev auto capture", SignerApp::AutoCapture),
        ];
        proof {
            assert(known_list(known@) =~= known_names());
        }
        find_known(&known, letters_of(name).as_str())
    }

    /// The app takes a pairing file while it is installed.
    pub open spec fn takes_pairing_file(self) -> bool {
        !(self == SignerApp::Default || self == SignerApp::LiveContainer || self
            == SignerApp::AltStore)
    }

    /// The app takes a pairing file once it is installed.
    pub open spec fn takes_pairing_file_later(self) -> bool {
        !(self == SignerApp::Default || self == SignerApp::AltStore)
    }

    /// Where the app looks for its pairing file.
    pub open spec fn pairing_path(self) -> Option<Seq<char>> {
        match self {
            SignerApp::Antrag | SignerApp::Feather | SignerApp::Protokolle | SignerApp::StikDebug
            | SignerApp::SparseBox | SignerApp::EnsWilde | SignerApp::StikStore
            | SignerApp::Reynard | SignerApp::Ksign => Some("/Documents/pairingFile.plist"@),
            SignerApp::SideStore => Some("/Documents/ALTPairingFile.mobiledevicepairing"@),
            SignerApp::LiveContainerAndSideStore | SignerApp::LiveContainer => Some(
                "/Documents/SideStore/Documents/ALTPairingFile.mobiledevicepairing"@,
            ),
            SignerApp::ByeTunes => Some("/Documents/pairing file/pairingFile.plist"@),
            SignerApp::AutoCapture => Some("/Documents/rpPairingFile.plist"@),
            SignerApp::Default | SignerApp::AltStore => None,
        }
    }

    pub fn supports_pairing_file(&self) -> (r: bool)
        ensures
            r == self.takes_pairing_file(),
    {
        match self {
            SignerApp::Default | SignerApp::LiveContainer | SignerApp::AltStore => false,
            _ => true,
        }
    }

    pub fn supports_pairing_file_alt(&self) -> (r: bool)
        ensures
            r == self.takes_pairing_file_later(),
    {
        match self {
            SignerApp::Default | SignerApp::AltStore => false,
            _ => true,
        }
    }

    pub fn pairing_file_path(&self) -> (r: Option<&'static str>)
        ensures
            crate::platform::opt_str(r) == self.pairing_path(),
    {
        match self {
            SignerApp::Antrag | SignerApp::Feather | SignerApp::Protokolle | SignerApp::StikDebug
            | SignerApp::SparseBox | SignerApp::EnsWilde | SignerApp::StikStore
            | SignerApp::Reynard | SignerApp::Ksign => Some("/Documents/pairingFile.plist"),
            SignerApp::SideStore => Some("/Documents/ALTPairingFile.mobiledevicepairing"),
            SignerApp::LiveContainerAndSideStore | SignerApp::LiveContainer => Some(
                "/Documents/SideStore/Documents/ALTPairingFile.mobiledevicepairing",
            ),
            SignerApp::ByeTunes => Some("/Documents/pairing file/pairingFile.plist"),
            SignerApp::AutoCapture => Some("/Documents/rpPairingFile.plist"),
            SignerApp::Default | SignerApp::AltStore => None,
        }
    }
}

/// An app that takes a pairing file, at once or later, has a place for it.
pub proof fn law_pairing_file_has_a_place(app: SignerApp)
    ensures
        app.takes_pairing_file() ==> app.takes_pairing_file_later(),
        app.takes_pairing_file_later() == (app.pairing_path() is Some),
{
}

/// An app as it was found on a device.
#[derive(Debug, Clone, PartialEq, Eq)]
pub struct SignerAppReal {
    pub app: SignerApp,
    pub bundle_id: Option<String>,
}

fn owned(s: Option<&str>) -> (r: Option<String>)
    ensures
        opt_text(r) == crate::platform::opt_str(s),
{
    match s {
        Some(s) => Some(s.to_string()),
        None => None,
    }
}

impl SignerAppReal {
    pub fn from_bundle_identifier(identifier: Option<&str>) -> (r: SignerAppReal)
        ensures
            r.app == app_by_id(crate::platform::opt_str(identifier)),
            opt_text(r.bundle_id) == crate::platform::opt_str(identifier),
    {
        SignerAppReal {
            app: SignerApp::from_bundle_identifier(identifier),
            bundle_id: owned(identifier),
        }
    }

    pub fn from_bundle_identifier_and_name(identifier: Option<&str>, name: Option<&str>) -> (r:
        SignerAppReal)
        ensures
            r.app == app_by_id_or_name(
                crate::platform::opt_str(identifier),
                crate::platform::opt_str(name),
            ),
            opt_text(r.bundle_id) == crate::platform::opt_str(identifier),
    {
        SignerAppReal {
            app: SignerApp::from_bundle_identifier_or_name(identifier, name),
            bundle_id: owned(identifier),
        }
    }
}

// ---------------------------------------------------------------------------
// Options
// ---------------------------------------------------------------------------

#[derive(Debug, Clone, Copy, PartialEq, Eq, Structural)]
pub struct SignerFeatures {
    pub support_minimum_os_version: bool,
    pub support_file_sharing: bool,
    pub support_ipad_fullscreen: bool,
    pub support_game_mode: bool,
    pub support_pro_motion: bool,
    pub support_liquid_glass: bool,
    pub support_ellekit: bool,
    pub remove_url_schemes: bool,
}

/// No feature at all.
pub open spec fn no_features() -> SignerFeatures {
    SignerFeatures {
        support_minimum_os_version: false,
        support_file_sharing: false,
        support_ipad_fullscreen: false,
        support_game_mode: false,
        support_pro_motion: false,
        support_liquid_glass: false,
        support_ellekit: false,
        remove_url_schemes: false,
    }
}

impl Default for SignerFeatures {
    fn default() -> (r: SignerFeatures)
        ensures
            r == no_features(),
    {
        SignerFeatures {
            support_minimum_os_version: false,
            support_file_sharing: false,
            support_ipad_fullscreen: false,
            support_game_mode: false,
            support_pro_motion: false,
            support_liquid_glass: false,
            support_ellekit: false,
            remove_url_schemes: false,
        }
    }
}

/// What is put into the bundles of an app.
#[derive(Debug, Clone, Copy, PartialEq, Eq, Structural)]
pub struct SignerEmbedding {
    pub single_profile: bool,
}

impl Default for SignerEmbedding {
    fn default() -> (r: SignerEmbedding)
        ensures
            !r.single_profile,
    {
        SignerEmbedding { single_profile: false }
    }
}

/// The settings of a signing run.
#[derive(Debug, Clone)]
pub struct SignerOptions {
    pub custom_name: Option<String>,
    pub custom_identifier: Option<String>,
    pub custom_version: Option<String>,
    pub custom_icon: Option<String>,
    /// Entitlements to use; they count only with a single profile.
    pub custom_entitlements: Option<String>,
    pub features: SignerFeatures,
    pub embedding: SignerEmbedding,
    pub mode: SignerMode,
    pub install_mode: SignerInstallMode,
    pub tweaks: Option<Vec<String>>,
    pub tweak_loader: TweakLoader,
    pub tweak_injection: TweakInjection,
    pub app: SignerApp,
    pub refresh: bool,
}

/// The settings for `app` where nothing is chosen.
pub open spec fn plain_options(app: SignerApp, single_profile: bool) -> SignerOptions {
    SignerOptions {
        custom_name: None,
        custom_identifier: None,
        custom_version: None,
        custom_icon: None,
        custom_entitlements: None,
        features: no_features(),
        embedding: SignerEmbedding { single_profile },
        mode: SignerMode::Pem,
        install_mode: SignerInstallMode::Install,
        tweaks: None,
        tweak_loader: TweakLoader::ElleKit,
        tweak_injection: TweakInjection::Legacy,
        app,
        refresh: false,
    }
}

impl Default for SignerOptions {
    fn default() -> (r: SignerOptions)
        ensures
            r == plain_options(SignerApp::Default, false),
    {
        SignerOptions {
            custom_name: None,
            custom_identifier: None,
            custom_version: None,
            custom_icon: None,
            custom_entitlements: None,
            features: SignerFeatures::default(),
            embedding: SignerEmbedding::default(),
            mode: SignerMode::default(),
            install_mode: SignerInstallMode::default(),
            tweaks: None,
            tweak_loader: TweakLoader::default(),
            tweak_injection: TweakInjection::default(),
            app: SignerApp::Default,
            refresh: false,
        }
    }
}

impl SignerOptions {
    /// The settings for an app: the containers get a single profile.
    pub fn new_for_app(app: SignerApp) -> (r: SignerOptions)
        ensures
            r == plain_options(
                app,
                app == SignerApp::LiveContainer || app == SignerApp::LiveContainerAndSideStore,
            ),
    {
        let mut settings: SignerOptions = SignerOptions::default();
        settings.app = app;
        match app {
            SignerApp::LiveContainer | SignerApp::LiveContainerAndSideStore => {
                settings.embedding.single_profile = true;
            },
            _ => {},
        }
        settings
    }
}

/// A setting is read back from its text, whatever the case of its letters.
pub proof fn law_settings_are_read_back(
    loader: TweakLoader,
    path: TweakInjectPath,
    folder: TweakInjectFolder,
)
    ensures
        loader_named(lower(loader.text())) == Some(loader),
        inject_path_named(lower(path.text())) == Some(path),
        inject_folder_named(lower(folder.text())) == Some(folder),
{
    reveal_strlit("");
    reveal_strlit("ellekit");
    reveal_strlit("none");
    reveal_strlit("nothing");
    reveal_strlit("direct");
    reveal_strlit("@rpath");
    reveal_strlit("rpath");
    reveal_strlit("@executable_path");
    reveal_strlit("executable");
    reveal_strlit("executable_path");
    reveal_strlit("executable-path");
    reveal_strlit("exec");
    reveal_strlit("/");
    reveal_strlit(".");
    reveal_strlit("root");
    reveal_strlit("Frameworks/");
    reveal_strlit("frameworks/");
    reveal_strlit("frameworks");
    reveal_strlit("framework");
    reveal_strlit("/frameworks");
    reveal_strlit("/frameworks/");
    assert(lower("ellekit"@) =~= "ellekit"@);
    assert(lower("none"@) =~= "none"@);
    assert(lower("@rpath"@) =~= "@rpath"@);
    assert(lower("@executable_path"@) =~= "@executable_path"@);
    assert(lower("/"@) =~= "/"@);
    assert(lower("Frameworks/"@) =~= "frameworks/"@);
}

/// An app is recognised only by an identifier that holds the one it is known by, and an identifier
/// that holds one of these is recognised.
pub proof fn law_apps_are_recognised_by_identifier(id: Seq<char>)
    ensures
        ({
            let app = app_by_id(Some(id));
            &&& app == SignerApp::SideStore ==> has_text(id, "com.SideStore.SideStore"@)
            &&& app == SignerApp::AltStore ==> has_text(id, "com.rileytestut.AltStore"@)
            &&& app == SignerApp::LiveContainer ==> has_text(id, "com.kdt.livecontainer"@)
            &&& app == SignerApp::Feather ==> has_text(id, "thewonderofyou.Feather"@)
            &&& app == SignerApp::Antrag ==> has_text(id, "thewonderofyou.antrag2"@)
            &&& app == SignerApp::Protokolle ==> has_text(id, "thewonderofyou.syslog"@)
            &&& app == SignerApp::StikDebug ==> has_text(id, "com.stik.sj"@)
            &&& app == SignerApp::SparseBox ==> has_text(id, "com.kdt.SparseBox"@)
            &&& app == SignerApp::EnsWilde ==> has_text(id, "com.yangjiii.EnsWilde"@)
            &&& app == SignerApp::ByeTunes ==> has_text(id, "com.EduAlexxis.MusicManager"@)
            &&& app == SignerApp::StikStore ==> has_text(id, "me.stik.store"@) || has_text(
                id,
                "app.stik.store"@,
            )
            &&& app == SignerApp::Reynard ==> has_text(id, "com.minh-ton.Reynard"@)
            &&& app == SignerApp::Ksign ==> has_text(id, "nya.asami.ksign"@)
            &&& app == SignerApp::AutoCapture ==> has_text(id, "com.halfeatentoast.devcapture"@)
            &&& app != SignerApp::LiveContainerAndSideStore
            &&& app == SignerApp::Default <==> !(has_text(id, "com.SideStore.SideStore"@) || has_text(
                id,
                "com.rileytestut.AltStore"@,
            ) || has_text(id, "com.kdt.livecontainer"@) || has_text(id, "thewonderofyou.Feather"@)
                || has_text(id, "thewonderofyou.antrag2"@) || has_text(id, "thewonderofyou.syslog"@)
                || has_text(id, "com.stik.sj"@) || has_text(id, "com.kdt.SparseBox"@) || has_text(
                id,
                "com.yangjiii.EnsWilde"@,
            ) || has_text(id, "com.EduAlexxis.MusicManager"@) || has_text(id, "me.stik.store"@)
                || has_text(id, "app.stik.store"@) || has_text(id, "com.minh-ton.Reynard"@)
                || has_text(id, "nya.asami.ksign"@) || has_text(
                id,
                "com.halfeatentoast.devcapture"@,
            ))
        }),
{
    let k = known_ids();
    assert(k.len() == 15);
    reveal_with_fuel(first_known, 17);
}

/// An app that its identifier tells is that app whatever its name; otherwise its name tells it.
pub proof fn law_identifier_comes_before_name(id: Seq<char>, name: Seq<char>)
    ensures
        app_by_id(Some(id)) != SignerApp::Default ==> app_by_id_or_name(Some(id), Some(name))
            == app_by_id(Some(id)),
        app_by_id(Some(id)) == SignerApp::Default ==> app_by_id_or_name(Some(id), Some(name))
            == app_by_id_or_name(None, Some(name)),
        app_by_id_or_name(None, None) == SignerApp::Default,
        app_by_id_or_name(Some(id), None) == app_by_id(Some(id)),
{
}

/// Every place for a pairing file lies in the documents of its app.
pub proof fn law_pairing_files_lie_in_documents(app: SignerApp)
    ensures
        app.pairing_path() matches Some(path) ==> crate::text::is_prefix("/Documents/"@, path),
        app.pairing_path() is None <==> app == SignerApp::Default || app == SignerApp::AltStore,
{
    reveal_strlit("/Documents/");
    reveal_strlit("/Documents/pairingFile.plist");
    reveal_strlit("/Documents/ALTPairingFile.mobiledevicepairing");
    reveal_strlit("/Documents/SideStore/Documents/ALTPairingFile.mobiledevicepairing");
    reveal_strlit("/Documents/pairing file/pairingFile.plist");
    reveal_strlit("/Documents/rpPairingFile.plist");
    assert("/Documents/pairingFile.plist"@.subrange(0, 11) =~= "/Documents/"@);
    assert("/Documents/ALTPairingFile.mobiledevicepairing"@.subrange(0, 11) =~= "/Documents/"@);
    assert("/Documents/SideStore/Documents/ALTPairingFile.mobiledevicepairing"@.subrange(0, 11)
        =~= "/Documents/"@);
    assert("/Documents/pairing file/pairingFile.plist"@.subrange(0, 11) =~= "/Documents/"@);
    assert("/Documents/rpPairingFile.plist"@.subrange(0, 11) =~= "/Documents/"@);
}

/// The letters of a name by which an app is told are its letters and digits in lower case, in order.
pub proof fn law_plain_letters(s: Seq<char>, n: int)
    requires
        0 <= n <= s.len(),
    ensures
        forall|i: int|
            0 <= i < plain_letters(s, n).len() ==> is_alnum(#[trigger] plain_letters(s, n)[i]),
        (forall|i: int| 0 <= i < n ==> is_alnum(#[trigger] lower(s)[i])) ==> plain_letters(s, n)
            == lower(s).take(n),
    decreases n,
{
    if n > 0 {
        law_plain_letters(s, n - 1);
        let head = plain_letters(s, n - 1);
        assert forall|i: int| 0 <= i < plain_letters(s, n).len() implies is_alnum(
            #[trigger] plain_letters(s, n)[i],
        ) by {
            if i < head.len() {
                assert(plain_letters(s, n)[i] == head[i]);
            }
        }
        if forall|i: int| 0 <= i < n ==> is_alnum(#[trigger] lower(s)[i]) {
            assert(is_alnum(lower(s)[n - 1]));
            assert(lower(s).take(n) =~= lower(s).take(n - 1).push(lower(s)[n - 1]));
        }
    } else {
        assert(lower(s).take(0) =~= seq![]);
    }
}

/// What a tweak is loaded by begins with its path and ends with a slash; it names the folder of
/// frameworks exactly where the tweak lies there.
pub proof fn law_tweaks_are_loaded_from_their_folder(path: TweakInjectPath)
    ensures
        ({
            let root = TweakInjection::Custom { path, folder: TweakInjectFolder::Root };
            let inner = TweakInjection::Custom { path, folder: TweakInjectFolder::Frameworks };
            &&& root.load_prefix() == path.text().push('/')
            &&& inner.load_prefix() == root.load_prefix() + "Frameworks/"@
            &&& TweakInjection::Legacy.load_prefix() == "@rpath/"@
        }),
{
    reveal_strlit("/");
    reveal_strlit("");
    let root = TweakInjection::Custom { path, folder: TweakInjectFolder::Root };
    let inner = TweakInjection::Custom { path, folder: TweakInjectFolder::Frameworks };
    assert(root.load_prefix() =~= path.text().push('/'));
    assert(inner.load_prefix() =~= root.load_prefix() + "Frameworks/"@);
}

/// An app takes a pairing file later exactly where there is a place for one in it, and at once too,
/// unless it is a container of apps.
pub proof fn law_who_takes_a_pairing_file(app: SignerApp)
    ensures
        app.takes_pairing_file_later() <==> app.pairing_path() is Some,
        app.takes_pairing_file() ==> app.takes_pairing_file_later(),
        app.takes_pairing_file_later() && !app.takes_pairing_file() <==> app
            == SignerApp::LiveContainer,
{
}

/// A setting is read whatever the case of its letters.
pub proof fn law_settings_are_read_in_any_case(value: Seq<char>)
    requires
        value.len() > 0,
        !crate::text::white_space(value[0]),
        !crate::text::white_space(value.last()),
    ensures
        setting(value) == lower(value),
        setting(crate::text::upper(value)) == setting(value),
        setting(lower(value)) == setting(value),
{
    let u = crate::text::upper(value);
    let l = lower(value);
    crate::text::law_upper_case(value);
    crate::text::law_trimmed_text(value);
    assert(u[0] == crate::text::upper_char(value[0]));
    assert(u.last() == crate::text::upper_char(value.last()));
    assert(l[0] == crate::text::lower_char(value[0]));
    assert(l.last() == crate::text::lower_char(value.last()));
    crate::text::law_trimmed_text(u);
    crate::text::law_trimmed_text(l);
    assert(lower(l) =~= l);
}

} // verus!
