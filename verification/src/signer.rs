//! Changing, registering, checking and signing the bundles of an app.
use crate::error::PlumeError;
use crate::options::{SignerApp, SignerMode, SignerOptions};
use crate::paths::{components, components_of, join_path, path_join};
use crate::platform::opt_str;
use crate::plist_model::{group_plist_models, list_model};
use crate::plist_value::{PlistDictionary, PlistModel, PlistValue};
use crate::provision::{opt_bytes, MobileProvision};
use crate::text::{join3, opt_text, same_text, texts};
use crate::tvos::says;
use vstd::prelude::*;

verus! {

broadcast use group_plist_models;

// ---------------------------------------------------------------------------
// Bundles and certificates
// ---------------------------------------------------------------------------

#[derive(Debug, Clone, Copy, PartialEq, Eq, Structural)]
pub enum BundleType {
    App,
    AppExtension,
    Framework,
    Dylib,
    Unknown,
}

/// What is known of a bundle.
#[derive(Debug)]
pub struct BundleFacts {
    pub dir: String,
    pub kind: BundleType,
    /// Whether bundles of this kind carry entitlements.
    pub entitled: bool,
    pub identifier: Option<String>,
    pub executable: Option<String>,
    pub name: Option<String>,
}

/// A certificate to sign with.
#[derive(Debug)]
pub struct SigningCertificate {
    pub der: Option<Vec<u8>>,
    pub p12_data: Option<Vec<u8>>,
    pub serial_number: Option<String>,
}

/// A signing run.
pub struct Signer {
    pub certificate: Option<SigningCertificate>,
    pub options: SignerOptions,
    pub provisioning_files: Vec<MobileProvision>,
}

fn other(message: &str) -> (r: PlumeError)
    ensures
        says(r, message@),
{
    PlumeError::Other(message.to_string())
}

impl Signer {
    pub fn new(certificate: Option<SigningCertificate>, options: SignerOptions) -> (r: Signer)
        ensures
            r.certificate == certificate,
            r.options == options,
            r.provisioning_files@.len() == 0,
    {
        Signer { certificate, options, provisioning_files: Vec::new() }
    }

    /// The encoded certificate, where there is one.
    pub open spec fn der(self) -> Option<Seq<u8>> {
        match self.certificate {
            Some(c) => match c.der {
                Some(der) => Some(der@),
                None => None,
            },
            None => None,
        }
    }

    fn certificate_der(&self) -> (r: Option<&[u8]>)
        ensures
            opt_bytes(r) == self.der(),
    {
        match &self.certificate {
            Some(c) => match &c.der {
                Some(der) => Some(der.as_slice()),
                None => None,
            },
            None => None,
        }
    }
}

// ---------------------------------------------------------------------------
// Changing a bundle
// ---------------------------------------------------------------------------

/// One change to the bundles of an app.
#[derive(Debug)]
pub enum BundleEdit {
    SetName(String),
    SetVersion(String),
    /// A key in the information of the bundle in the directory.
    SetKey { dir: String, key: String, value: PlistValue },
    /// The identifier of the bundle in the directory, where it matches.
    ReplaceIdentifier { dir: String, from: String, to: String },
    /// The certificate with its key, as a file.
    WriteCertificate(String),
    /// An icon of the given size, rendered from the picture into the file.
    RenderIcon { picture: String, file: String, size: u32 },
    InstallElleKit,
    ApplyTweak(String),
    /// The version of the development kit that the executable was built with.
    SetSdkVersion(String),
}

/// The content of a change.
pub ghost enum EditModel {
    SetName(Seq<char>),
    SetVersion(Seq<char>),
    SetKey(Seq<char>, Seq<char>, PlistModel),
    ReplaceIdentifier(Seq<char>, Seq<char>, Seq<char>),
    WriteCertificate(Seq<char>),
    RenderIcon(Seq<char>, Seq<char>, u32),
    InstallElleKit,
    ApplyTweak(Seq<char>),
    SetSdkVersion(Seq<char>),
}

impl View for BundleEdit {
    type V = EditModel;

    open spec fn view(&self) -> EditModel {
        match self {
            BundleEdit::SetName(s) => EditModel::SetName(s@),
            BundleEdit::SetVersion(s) => EditModel::SetVersion(s@),
            BundleEdit::SetKey { dir, key, value } => EditModel::SetKey(dir@, key@, value@),
            BundleEdit::ReplaceIdentifier { dir, from, to } => EditModel::ReplaceIdentifier(
                dir@,
                from@,
                to@,
            ),
            BundleEdit::WriteCertificate(s) => EditModel::WriteCertificate(s@),
            BundleEdit::RenderIcon { picture, file, size } => EditModel::RenderIcon(
                picture@,
                file@,
                *size,
            ),
            BundleEdit::InstallElleKit => EditModel::InstallElleKit,
            BundleEdit::ApplyTweak(s) => EditModel::ApplyTweak(s@),
            BundleEdit::SetSdkVersion(s) => EditModel::SetSdkVersion(s@),
        }
    }
}

/// The contents of a list of changes.
pub open spec fn edits(v: Seq<BundleEdit>) -> Seq<EditModel> {
    v.map_values(|e: BundleEdit| e@)
}

/// A change where a condition holds.
pub open spec fn edit_if(condition: bool, edit: EditModel) -> Seq<EditModel> {
    if condition {
        seq![edit]
    } else {
        seq![]
    }
}

/// A key set to a truth value.
pub open spec fn set_flag(dir: Seq<char>, key: Seq<char>, value: bool) -> EditModel {
    EditModel::SetKey(dir, key, PlistModel::Boolean(value))
}

/// The change for a chosen name.
pub open spec fn name_edits(options: SignerOptions) -> Seq<EditModel> {
    match options.custom_name {
        Some(name) => seq![EditModel::SetName(name@)],
        None => seq![],
    }
}

/// The change for a chosen version.
pub open spec fn version_edits(options: SignerOptions) -> Seq<EditModel> {
    match options.custom_version {
        Some(version) => seq![EditModel::SetVersion(version@)],
        None => seq![],
    }
}

/// The changes for the chosen name, version and features.
pub open spec fn plain_edits(options: SignerOptions, dir: Seq<char>) -> Seq<EditModel> {
    let f = options.features;
    name_edits(options) + version_edits(options) + edit_if(
        f.support_minimum_os_version,
        EditModel::SetKey(dir, "MinimumOSVersion"@, PlistModel::Text("7.0"@)),
    ) + edit_if(f.support_file_sharing, set_flag(dir, "UIFileSharingEnabled"@, true)) + edit_if(
        f.support_file_sharing,
        set_flag(dir, "UISupportsDocumentBrowser"@, true),
    ) + edit_if(f.support_ipad_fullscreen, set_flag(dir, "UIRequiresFullScreen"@, true)) + edit_if(
        f.support_game_mode,
        set_flag(dir, "GCSupportsGameMode"@, true),
    ) + edit_if(
        f.support_pro_motion,
        set_flag(dir, "CADisableMinimumFrameDurationOnPhone"@, true),
    )
}

/// The identifier that the app gets: the chosen one, else with a team its own with the team behind
/// it, but not where it is signed without a team.
pub open spec fn new_identifier(
    options: SignerOptions,
    identifier: Option<Seq<char>>,
    team: Option<Seq<char>>,
) -> Option<Seq<char>> {
    match (options.custom_identifier, identifier, team) {
        (Some(chosen), _, _) => Some(chosen@),
        (None, Some(own), Some(t)) if options.mode != SignerMode::Adhoc => Some(own + "."@ + t),
        _ => None,
    }
}

/// The changes of identifiers among the first `n` bundles: those that carry entitlements.
pub open spec fn identifier_edits(
    bundles: Seq<BundleFacts>,
    from: Seq<char>,
    to: Seq<char>,
    n: int,
) -> Seq<EditModel>
    decreases n,
{
    if n <= 0 {
        seq![]
    } else {
        identifier_edits(bundles, from, to, n - 1) + edit_if(
            bundles[n - 1].entitled,
            EditModel::ReplaceIdentifier(bundles[n - 1].dir@, from, to),
        )
    }
}

/// The last component of the path is `name`.
pub open spec fn path_ends_with(path: Seq<char>, name: Seq<char>) -> bool {
    components(path).len() > 0 && components(path).last() == name
}

/// The index of the first bundle at or after `from` whose directory has the given name, or the
/// number of bundles.
pub open spec fn bundle_named(bundles: Seq<BundleFacts>, name: Seq<char>, from: int) -> int
    decreases bundles.len() - from,
{
    if from >= bundles.len() || path_ends_with(bundles[from].dir@, name) {
        from
    } else {
        bundle_named(bundles, name, from + 1)
    }
}

/// The changes that put the certificate into a bundle.
pub open spec fn certificate_into(dir: Seq<char>, serial: Seq<char>) -> Seq<EditModel> {
    seq![
        EditModel::SetKey(dir, "ALTCertificateID"@, PlistModel::Text(serial)),
        EditModel::WriteCertificate(path_join(dir, "ALTCertificate.p12"@)),
    ]
}

/// The changes that give the stores the certificate: only with its key and its serial number.
pub open spec fn certificate_edits(
    app: SignerApp,
    certificate: Option<SigningCertificate>,
    dir: Seq<char>,
    bundles: Seq<BundleFacts>,
) -> Seq<EditModel> {
    match certificate {
        Some(c) if c.p12_data is Some && c.serial_number is Some => {
            let serial = c.serial_number->0@;
            if app == SignerApp::SideStore || app == SignerApp::AltStore {
                certificate_into(dir, serial)
            } else if app == SignerApp::LiveContainerAndSideStore {
                let i = bundle_named(bundles, "SideStoreApp.framework"@, 0);
                if i < bundles.len() {
                    certificate_into(bundles[i].dir@, serial)
                } else {
                    seq![]
                }
            } else {
                seq![]
            }
        },
        _ => seq![],
    }
}

/// The information on icons: the names of their files.
pub open spec fn icon_info(files: Seq<PlistModel>) -> PlistModel {
    PlistModel::Dict(
        seq![
            (
                "CFBundlePrimaryIcon"@,
                PlistModel::Dict(
                    seq![
                        ("CFBundleIconFiles"@, PlistModel::Array(files)),
                        ("CFBundleIconName"@, PlistModel::Text("FRIcon"@)),
                    ],
                ),
            ),
        ],
    )
}

/// The changes for a chosen icon.
pub open spec fn icon_edits(icon: Option<String>, dir: Seq<char>) -> Seq<EditModel> {
    match icon {
        Some(picture) => seq![
            EditModel::RenderIcon(picture@, path_join(dir, "FRIcon60x60@2x.png"@), 120),
            EditModel::RenderIcon(picture@, path_join(dir, "FRIcon76x76@2x~ipad.png"@), 152),
            EditModel::SetKey(
                dir,
                "CFBundleIcons"@,
                icon_info(seq![PlistModel::Text("FRIcon60x60"@)]),
            ),
            EditModel::SetKey(
                dir,
                "CFBundleIcons~ipad"@,
                icon_info(
                    seq![PlistModel::Text("FRIcon60x60"@), PlistModel::Text("FRIcon76x76"@)],
                ),
            ),
        ],
        None => seq![],
    }
}

/// The changes for tweaks: any tweak brings the loader along.
pub open spec fn tweak_edits(options: SignerOptions) -> Seq<EditModel> {
    let tweaks = match options.tweaks {
        Some(t) => texts(t@),
        None => seq![],
    };
    edit_if(options.features.support_ellekit || tweaks.len() > 0, EditModel::InstallElleKit)
        + tweaks.map_values(|t: Seq<char>| EditModel::ApplyTweak(t))
}

/// The changes for the newer look.
pub open spec fn glass_edits(options: SignerOptions, dir: Seq<char>) -> Seq<EditModel> {
    if options.features.support_liquid_glass {
        seq![
            set_flag(dir, "UIDesignRequiresCompatibility"@, false),
            EditModel::SetSdkVersion("26.0.0"@),
        ]
    } else {
        seq![]
    }
}

/// The changes to an app, in their order.
pub open spec fn planned_edits(
    signer: Signer,
    bundle: BundleFacts,
    bundles: Seq<BundleFacts>,
    team: Option<Seq<char>>,
) -> Seq<EditModel> {
    let dir = bundle.dir@;
    let identifier = opt_text(bundle.identifier);
    plain_edits(signer.options, dir) + (match (
        new_identifier(signer.options, identifier, team),
        identifier,
    ) {
        (Some(to), Some(from)) => identifier_edits(bundles, from, to, bundles.len() as int),
        _ => seq![],
    }) + certificate_edits(signer.options.app, signer.certificate, dir, bundles) + icon_edits(
        signer.options.custom_icon,
        dir,
    ) + tweak_edits(signer.options) + glass_edits(signer.options, dir)
}

fn push_edit(v: &mut Vec<BundleEdit>, e: BundleEdit)
    ensures
        edits(final(v)@) == edits(old(v)@) + seq![e@],
{
    let ghost before = v@;
    let ghost shown = e@;
    v.push(e);
    proof {
        assert(edits(v@) =~= edits(before) + seq![shown]);
    }
}

fn push_flag(v: &mut Vec<BundleEdit>, condition: bool, dir: &str, key: &str, value: bool)
    ensures
        edits(final(v)@) == edits(old(v)@) + edit_if(condition, set_flag(dir@, key@, value)),
{
    if condition {
        push_edit(
            v,
            BundleEdit::SetKey {
                dir: dir.to_string(),
                key: key.to_string(),
                value: PlistValue::Boolean(value),
            },
        );
    } else {
        proof {
            assert(edits(v@) + seq![] =~= edits(v@));
        }
    }
}

fn append_edits(v: &mut Vec<BundleEdit>, more: Vec<BundleEdit>)
    ensures
        edits(final(v)@) == edits(old(v)@) + edits(more@),
{
    let ghost before = v@;
    let mut more: Vec<BundleEdit> = more;
    let ghost added = more@;
    v.append(&mut more);
    proof {
        assert(edits(v@) =~= edits(before) + edits(added));
    }
}

fn plan_plain(options: &SignerOptions, dir: &str) -> (r: Vec<BundleEdit>)
    ensures
        edits(r@) == plain_edits(*options, dir@),
{
    let mut v: Vec<BundleEdit> = Vec::new();
    proof {
        assert(edits(v@) =~= seq![]);
    }
    if let Some(name) = &options.custom_name {
        push_edit(&mut v, BundleEdit::SetName(name.clone()));
    }
    let ghost s1: Seq<EditModel> = name_edits(*options);
    proof {
        assert(edits(v@) =~= s1);
    }
    if let Some(version) = &options.custom_version {
        push_edit(&mut v, BundleEdit::SetVersion(version.clone()));
    }
    let ghost s2: Seq<EditModel> = version_edits(*options);
    proof {
        assert(edits(v@) =~= s1 + s2);
    }
    if options.features.support_minimum_os_version {
        push_edit(
            &mut v,
            BundleEdit::SetKey {
                dir: dir.to_string(),
                key: "MinimumOSVersion".to_string(),
                value: PlistValue::Text("7.0".to_string()),
            },
        );
    }
    proof {
        assert(edits(v@) =~= s1 + s2 + edit_if(
            options.features.support_minimum_os_version,
            EditModel::SetKey(dir@, "MinimumOSVersion"@, PlistModel::Text("7.0"@)),
        ));
    }
    let f: crate::options::SignerFeatures = options.features;
    push_flag(&mut v, f.support_file_sharing, dir, "UIFileSharingEnabled", true);
    push_flag(&mut v, f.support_file_sharing, dir, "UISupportsDocumentBrowser", true);
    push_flag(&mut v, f.support_ipad_fullscreen, dir, "UIRequiresFullScreen", true);
    push_flag(&mut v, f.support_game_mode, dir, "GCSupportsGameMode", true);
    push_flag(&mut v, f.support_pro_motion, dir, "CADisableMinimumFrameDurationOnPhone", true);
    v
}

fn plan_identifiers(bundles: &Vec<BundleFacts>, from: &str, to: &str) -> (r: Vec<BundleEdit>)
    ensures
        edits(r@) == identifier_edits(bundles@, from@, to@, bundles@.len() as int),
{
    let mut v: Vec<BundleEdit> = Vec::new();
    let mut i: usize = 0;
    proof {
        assert(edits(v@) =~= seq![]);
    }
    while i < bundles.len()
        invariant
            i <= bundles@.len(),
            edits(v@) == identifier_edits(bundles@, from@, to@, i as int),
        decreases bundles@.len() - i,
    {
        if bundles[i].entitled {
            push_edit(
                &mut v,
                BundleEdit::ReplaceIdentifier {
                    dir: bundles[i].dir.clone(),
                    from: from.to_string(),
                    to: to.to_string(),
                },
            );
        } else {
            proof {
                assert(edits(v@) + seq![] =~= edits(v@));
            }
        }
        i += 1;
    }
    v
}

fn dir_is_named(dir: &str, name: &str) -> (r: bool)
    ensures
        r == path_ends_with(dir@, name@),
{
    let parts: Vec<String> = components_of(dir);
    let n: usize = parts.len();
    proof {
        assert(components(dir@).len() == n);
    }
    if n == 0 {
        return false;
    }
    proof {
        assert(texts(parts@).last() == parts@[n - 1]@);
    }
    same_text(parts[n - 1].as_str(), name)
}

fn plan_certificate_into(dir: &str, serial: &str) -> (r: Vec<BundleEdit>)
    ensures
        edits(r@) == certificate_into(dir@, serial@),
{
    let v: Vec<BundleEdit> = vec![
        BundleEdit::SetKey {
            dir: dir.to_string(),
            key: "ALTCertificateID".to_string(),
            value: PlistValue::Text(serial.to_string()),
        },
        BundleEdit::WriteCertificate(join_path(dir, "ALTCertificate.p12")),
    ];
    proof {
        assert(edits(v@) =~= certificate_into(dir@, serial@));
    }
    v
}

fn no_edits() -> (r: Vec<BundleEdit>)
    ensures
        edits(r@) == Seq::<EditModel>::empty(),
{
    let v: Vec<BundleEdit> = Vec::new();
    proof {
        assert(edits(v@) =~= seq![]);
    }
    v
}

fn plan_certificate(
    app: SignerApp,
    certificate: &Option<SigningCertificate>,
    dir: &str,
    bundles: &Vec<BundleFacts>,
) -> (r: Vec<BundleEdit>)
    ensures
        edits(r@) == certificate_edits(app, *certificate, dir@, bundles@),
{
    let serial: &String = match certificate {
        Some(c) => match (&c.p12_data, &c.serial_number) {
            (Some(_), Some(serial)) => serial,
            _ => {
                return no_edits();
            },
        },
        None => {
            return no_edits();
        },
    };
    match app {
        SignerApp::SideStore | SignerApp::AltStore => plan_certificate_into(dir, serial.as_str()),
        SignerApp::LiveContainerAndSideStore => {
            let mut i: usize = 0;
            while i < bundles.len() && !dir_is_named(
                bundles[i].dir.as_str(),
                "SideStoreApp.framework",
            )
                invariant
                    i <= bundles@.len(),
                    bundle_named(bundles@, "SideStoreApp.framework"@, 0) == bundle_named(
                        bundles@,
                        "SideStoreApp.framework"@,
                        i as int,
                    ),
                decreases bundles@.len() - i,
            {
                i += 1;
            }
            if i < bundles.len() {
                plan_certificate_into(bundles[i].dir.as_str(), serial.as_str())
            } else {
                no_edits()
            }
        },
        _ => no_edits(),
    }
}

fn icon_value(files: Vec<PlistValue>) -> (r: PlistValue)
    ensures
        r@ == icon_info(list_model(files@)),
{
    let ghost shown = list_model(files@);
    let primary: PlistDictionary = PlistDictionary {
        entries: vec![
            ("CFBundleIconFiles".to_string(), PlistValue::Array(files)),
            ("CFBundleIconName".to_string(), PlistValue::Text("FRIcon".to_string())),
        ],
    };
    proof {
        assert(primary@ =~= seq![
            ("CFBundleIconFiles"@, PlistModel::Array(shown)),
            ("CFBundleIconName"@, PlistModel::Text("FRIcon"@)),
        ]);
    }
    let ghost inner = primary@;
    let outer: PlistDictionary = PlistDictionary {
        entries: vec![("CFBundlePrimaryIcon".to_string(), PlistValue::Dict(primary))],
    };
    proof {
        assert(outer@ =~= seq![("CFBundlePrimaryIcon"@, PlistModel::Dict(inner))]);
    }
    PlistValue::Dict(outer)
}

fn plan_icon(icon: &Option<String>, dir: &str) -> (r: Vec<BundleEdit>)
    ensures
        edits(r@) == icon_edits(*icon, dir@),
{
    match icon {
        None => no_edits(),
        Some(picture) => {
            let phone: Vec<PlistValue> = vec![PlistValue::Text("FRIcon60x60".to_string())];
            let tablet: Vec<PlistValue> = vec![
                PlistValue::Text("FRIcon60x60".to_string()),
                PlistValue::Text("FRIcon76x76".to_string()),
            ];
            proof {
                assert(list_model(phone@) =~= seq![PlistModel::Text("FRIcon60x60"@)]);
                assert(list_model(tablet@) =~= seq![
                    PlistModel::Text("FRIcon60x60"@),
                    PlistModel::Text("FRIcon76x76"@),
                ]);
            }
            let v: Vec<BundleEdit> = vec![
                BundleEdit::RenderIcon {
                    picture: picture.clone(),
                    file: join_path(dir, "FRIcon60x60@2x.png"),
                    size: 120,
                },
                BundleEdit::RenderIcon {
                    picture: picture.clone(),
                    file: join_path(dir, "FRIcon76x76@2x~ipad.png"),
                    size: 152,
                },
                BundleEdit::SetKey {
                    dir: dir.to_string(),
                    key: "CFBundleIcons".to_string(),
                    value: icon_value(phone),
                },
                BundleEdit::SetKey {
                    dir: dir.to_string(),
                    key: "CFBundleIcons~ipad".to_string(),
                    value: icon_value(tablet),
                },
            ];
            proof {
                assert(edits(v@) =~= icon_edits(*icon, dir@));
            }
            v
        },
    }
}

fn plan_tweaks(options: &SignerOptions) -> (r: Vec<BundleEdit>)
    ensures
        edits(r@) == tweak_edits(*options),
{
    let mut v: Vec<BundleEdit> = no_edits();
    let none: Vec<String> = Vec::new();
    let tweaks: &Vec<String> = match &options.tweaks {
        Some(t) => t,
        None => &none,
    };
    let ghost shown = texts(tweaks@);
    let ghost head = edit_if(
        options.features.support_ellekit || shown.len() > 0,
        EditModel::InstallElleKit,
    );
    proof {
        if options.tweaks is None {
            assert(shown =~= seq![]);
        }
    }
    if options.features.support_ellekit || tweaks.len() > 0 {
        push_edit(&mut v, BundleEdit::InstallElleKit);
    }
    let ghost applied = shown.map_values(|t: Seq<char>| EditModel::ApplyTweak(t));
    proof {
        assert(edits(v@) =~= head);
        assert(edits(v@) =~= head + applied.take(0));
    }
    let mut i: usize = 0;
    while i < tweaks.len()
        invariant
            i <= tweaks@.len(),
            shown == texts(tweaks@),
            applied == shown.map_values(|t: Seq<char>| EditModel::ApplyTweak(t)),
            edits(v@) == head + applied.take(i as int),
        decreases tweaks@.len() - i,
    {
        push_edit(&mut v, BundleEdit::ApplyTweak(tweaks[i].clone()));
        proof {
            assert(applied[i as int] == EditModel::ApplyTweak(tweaks@[i as int]@));
            assert(edits(v@) =~= head + applied.take(i + 1));
        }
        i += 1;
    }
    proof {
        assert(applied.take(applied.len() as int) =~= applied);
    }
    v
}

fn plan_glass(options: &SignerOptions, dir: &str) -> (r: Vec<BundleEdit>)
    ensures
        edits(r@) == glass_edits(*options, dir@),
{
    if !options.features.support_liquid_glass {
        return no_edits();
    }
    let v: Vec<BundleEdit> = vec![
        BundleEdit::SetKey {
            dir: dir.to_string(),
            key: "UIDesignRequiresCompatibility".to_string(),
            value: PlistValue::Boolean(false),
        },
        BundleEdit::SetSdkVersion("26.0.0".to_string()),
    ];
    proof {
        assert(edits(v@) =~= glass_edits(*options, dir@));
    }
    v
}

impl Signer {
    /// The same run but for the chosen identifier.
    pub open spec fn same_but_identifier(self, before: Signer) -> bool {
        self == (Signer {
            options: SignerOptions {
                custom_identifier: self.options.custom_identifier,
                ..before.options
            },
            ..before
        })
    }

    /// The changes to an app, in their order. `bundles` are the bundle itself and those in it. The
    /// identifier that the app gets is remembered as the chosen one.
    pub fn modify_bundle(
        &mut self,
        bundle: &BundleFacts,
        bundles: &Vec<BundleFacts>,
        team_id: Option<&str>,
    ) -> (r: Vec<BundleEdit>)
        ensures
            old(self).options.mode == SignerMode::NoModify ==> r@.len() == 0 && *final(self)
                == *old(self),
            old(self).options.mode != SignerMode::NoModify ==> {
                &&& edits(r@) == planned_edits(*old(self), *bundle, bundles@, opt_str(team_id))
                &&& final(self).same_but_identifier(*old(self))
                &&& opt_text(final(self).options.custom_identifier) == new_identifier(
                    old(self).options,
                    opt_text(bundle.identifier),
                    opt_str(team_id),
                )
            },
    {
        if self.options.mode == SignerMode::NoModify {
            return Vec::new();
        }
        let dir: &str = bundle.dir.as_str();
        let mut v: Vec<BundleEdit> = plan_plain(&self.options, dir);
        if self.options.mode != SignerMode::Adhoc && self.options.custom_identifier.is_none() {
            if let (Some(identifier), Some(team)) = (&bundle.identifier, team_id) {
                self.options.custom_identifier = Some(join3(identifier.as_str(), ".", team));
            }
        }
        let renamed: Vec<BundleEdit> = match (&self.options.custom_identifier, &bundle.identifier) {
            (Some(to), Some(from)) => plan_identifiers(bundles, from.as_str(), to.as_str()),
            _ => no_edits(),
        };
        append_edits(&mut v, renamed);
        append_edits(&mut v, plan_certificate(self.options.app, &self.certificate, dir, bundles));
        append_edits(&mut v, plan_icon(&self.options.custom_icon, dir));
        append_edits(&mut v, plan_tweaks(&self.options));
        append_edits(&mut v, plan_glass(&self.options, dir));
        v
    }
}

/// The executable whose version of the development kit is set: it must be named and be there.
pub fn sdk_target(bundle: &BundleFacts, exists: bool) -> (r: Result<String, PlumeError>)
    ensures
        match (r, bundle.executable) {
            (Ok(path), Some(name)) => exists && path@ == path_join(bundle.dir@, name@),
            (Err(e), Some(_)) => !exists && e is BundleInfoPlistMissing,
            (Err(e), None) => e is BundleInfoPlistMissing,
            (Ok(_), None) => false,
        },
{
    match &bundle.executable {
        Some(name) => if exists {
            Ok(join_path(bundle.dir.as_str(), name.as_str()))
        } else {
            Err(PlumeError::BundleInfoPlistMissing)
        },
        None => Err(PlumeError::BundleInfoPlistMissing),
    }
}

// ---------------------------------------------------------------------------
// What the changes are for
// ---------------------------------------------------------------------------

/// The tweaks that were chosen.
pub open spec fn chosen_tweaks(options: SignerOptions) -> Seq<Seq<char>> {
    match options.tweaks {
        Some(t) => texts(t@),
        None => seq![],
    }
}

/// The changes up to the tweaks.
spec fn edits_before_tweaks(
    signer: Signer,
    bundle: BundleFacts,
    bundles: Seq<BundleFacts>,
    team: Option<Seq<char>>,
) -> Seq<EditModel> {
    let dir = bundle.dir@;
    let identifier = opt_text(bundle.identifier);
    plain_edits(signer.options, dir) + (match (
        new_identifier(signer.options, identifier, team),
        identifier,
    ) {
        (Some(to), Some(from)) => identifier_edits(bundles, from, to, bundles.len() as int),
        _ => seq![],
    }) + certificate_edits(signer.options.app, signer.certificate, dir, bundles) + icon_edits(
        signer.options.custom_icon,
        dir,
    )
}

proof fn lemma_parts(a: Seq<EditModel>, b: Seq<EditModel>, e: EditModel)
    ensures
        (a + b).contains(e) <==> a.contains(e) || b.contains(e),
        forall|k: int| 0 <= k < a.len() ==> #[trigger] (a + b)[k] == a[k],
        forall|k: int| a.len() <= k < (a + b).len() ==> #[trigger] (a + b)[k] == b[k - a.len()],
{
    if a.contains(e) {
        let i = choose|i: int| 0 <= i < a.len() && a[i] == e;
        assert((a + b)[i] == e);
    }
    if b.contains(e) {
        let i = choose|i: int| 0 <= i < b.len() && b[i] == e;
        assert((a + b)[a.len() + i] == e);
    }
    if (a + b).contains(e) {
        let i = choose|i: int| 0 <= i < (a + b).len() && (a + b)[i] == e;
        if i < a.len() {
            assert(a[i] == e);
        } else {
            assert(b[i - a.len()] == e);
        }
    }
}

/// What a change stands among, by its kind.
proof fn lemma_planned(
    signer: Signer,
    bundle: BundleFacts,
    bundles: Seq<BundleFacts>,
    team: Option<Seq<char>>,
    e: EditModel,
)
    ensures
        planned_edits(signer, bundle, bundles, team).contains(e) <==> {
            ||| plain_edits(signer.options, bundle.dir@).contains(e)
            ||| renaming(signer, bundle, bundles, team).contains(e)
            ||| certificate_edits(
                signer.options.app,
                signer.certificate,
                bundle.dir@,
                bundles,
            ).contains(e)
            ||| icon_edits(signer.options.custom_icon, bundle.dir@).contains(e)
            ||| tweak_edits(signer.options).contains(e)
            ||| glass_edits(signer.options, bundle.dir@).contains(e)
        },
{
    let p = plain_edits(signer.options, bundle.dir@);
    let i = renaming(signer, bundle, bundles, team);
    let c = certificate_edits(signer.options.app, signer.certificate, bundle.dir@, bundles);
    let k = icon_edits(signer.options.custom_icon, bundle.dir@);
    let t = tweak_edits(signer.options);
    let g = glass_edits(signer.options, bundle.dir@);
    lemma_parts(p, i, e);
    lemma_parts(p + i, c, e);
    lemma_parts(p + i + c, k, e);
    lemma_parts(p + i + c + k, t, e);
    lemma_parts(p + i + c + k + t, g, e);
}

spec fn renaming(
    signer: Signer,
    bundle: BundleFacts,
    bundles: Seq<BundleFacts>,
    team: Option<Seq<char>>,
) -> Seq<EditModel> {
    let identifier = opt_text(bundle.identifier);
    match (new_identifier(signer.options, identifier, team), identifier) {
        (Some(to), Some(from)) => identifier_edits(bundles, from, to, bundles.len() as int),
        _ => seq![],
    }
}

/// The changes of the plain part are names, versions and keys of the app itself.
proof fn lemma_plain_kinds(options: SignerOptions, dir: Seq<char>)
    ensures
        forall|e: EditModel| #[trigger]
            plain_edits(options, dir).contains(e) ==> e is SetName || e is SetVersion || (
            e is SetKey && e->SetKey_0 == dir),
{
    assert forall|e: EditModel| #[trigger] plain_edits(options, dir).contains(e) implies e is SetName
        || e is SetVersion || (e is SetKey && e->SetKey_0 == dir) by {
        lemma_plain(options, dir, e);
    }
}

/// What the plain part holds.
proof fn lemma_plain(options: SignerOptions, dir: Seq<char>, e: EditModel)
    ensures
        plain_edits(options, dir).contains(e) <==> {
            let f = options.features;
            ||| options.custom_name matches Some(n) && e == EditModel::SetName(n@)
            ||| options.custom_version matches Some(v) && e == EditModel::SetVersion(v@)
            ||| f.support_minimum_os_version && e == EditModel::SetKey(
                dir,
                "MinimumOSVersion"@,
                PlistModel::Text("7.0"@),
            )
            ||| f.support_file_sharing && e == set_flag(dir, "UIFileSharingEnabled"@, true)
            ||| f.support_file_sharing && e == set_flag(dir, "UISupportsDocumentBrowser"@, true)
            ||| f.support_ipad_fullscreen && e == set_flag(dir, "UIRequiresFullScreen"@, true)
            ||| f.support_game_mode && e == set_flag(dir, "GCSupportsGameMode"@, true)
            ||| f.support_pro_motion && e == set_flag(
                dir,
                "CADisableMinimumFrameDurationOnPhone"@,
                true,
            )
        },
{
    let f = options.features;
    let a = name_edits(options);
    let b = version_edits(options);
    let c1 = EditModel::SetKey(dir, "MinimumOSVersion"@, PlistModel::Text("7.0"@));
    let c2 = set_flag(dir, "UIFileSharingEnabled"@, true);
    let c3 = set_flag(dir, "UISupportsDocumentBrowser"@, true);
    let c4 = set_flag(dir, "UIRequiresFullScreen"@, true);
    let c5 = set_flag(dir, "GCSupportsGameMode"@, true);
    let c6 = set_flag(dir, "CADisableMinimumFrameDurationOnPhone"@, true);
    let s1 = edit_if(f.support_minimum_os_version, c1);
    let s2 = edit_if(f.support_file_sharing, c2);
    let s3 = edit_if(f.support_file_sharing, c3);
    let s4 = edit_if(f.support_ipad_fullscreen, c4);
    let s5 = edit_if(f.support_game_mode, c5);
    let s6 = edit_if(f.support_pro_motion, c6);
    lemma_parts(a, b, e);
    lemma_parts(a + b, s1, e);
    lemma_parts(a + b + s1, s2, e);
    lemma_parts(a + b + s1 + s2, s3, e);
    lemma_parts(a + b + s1 + s2 + s3, s4, e);
    lemma_parts(a + b + s1 + s2 + s3 + s4, s5, e);
    lemma_parts(a + b + s1 + s2 + s3 + s4 + s5, s6, e);
    lemma_edit_if(f.support_minimum_os_version, c1, e);
    lemma_edit_if(f.support_file_sharing, c2, e);
    lemma_edit_if(f.support_file_sharing, c3, e);
    lemma_edit_if(f.support_ipad_fullscreen, c4, e);
    lemma_edit_if(f.support_game_mode, c5, e);
    lemma_edit_if(f.support_pro_motion, c6, e);
    if options.custom_name is Some {
        assert(a[0] == EditModel::SetName(options.custom_name->0@));
    }
    if options.custom_version is Some {
        assert(b[0] == EditModel::SetVersion(options.custom_version->0@));
    }
}

proof fn lemma_edit_if(condition: bool, edit: EditModel, e: EditModel)
    ensures
        edit_if(condition, edit).contains(e) <==> condition && e == edit,
{
    if condition {
        assert(edit_if(condition, edit)[0] == edit);
    }
}

proof fn lemma_renaming(
    bundles: Seq<BundleFacts>,
    from: Seq<char>,
    to: Seq<char>,
    n: int,
    e: EditModel,
)
    requires
        0 <= n <= bundles.len(),
    ensures
        identifier_edits(bundles, from, to, n).contains(e) <==> exists|i: int|
            0 <= i < n && (#[trigger] bundles[i]).entitled && e == EditModel::ReplaceIdentifier(
                bundles[i].dir@,
                from,
                to,
            ),
    decreases n,
{
    if n > 0 {
        lemma_renaming(bundles, from, to, n - 1, e);
        let last = EditModel::ReplaceIdentifier(bundles[n - 1].dir@, from, to);
        lemma_edit_if(bundles[n - 1].entitled, last, e);
        lemma_parts(
            identifier_edits(bundles, from, to, n - 1),
            edit_if(bundles[n - 1].entitled, last),
            e,
        );
    }
}

proof fn lemma_renaming_kinds(
    signer: Signer,
    bundle: BundleFacts,
    bundles: Seq<BundleFacts>,
    team: Option<Seq<char>>,
    e: EditModel,
)
    requires
        renaming(signer, bundle, bundles, team).contains(e),
    ensures
        e is ReplaceIdentifier,
{
    let identifier = opt_text(bundle.identifier);
    if let (Some(to), Some(from)) = (new_identifier(signer.options, identifier, team), identifier) {
        lemma_renaming(bundles, from, to, bundles.len() as int, e);
    }
}

/// The parts behind the first two hold no names, no versions and no identifiers.
proof fn lemma_later_kinds(
    signer: Signer,
    bundle: BundleFacts,
    bundles: Seq<BundleFacts>,
    e: EditModel,
)
    requires
        e is SetName || e is SetVersion || e is ReplaceIdentifier,
    ensures
        !certificate_edits(
            signer.options.app,
            signer.certificate,
            bundle.dir@,
            bundles,
        ).contains(e),
        !icon_edits(signer.options.custom_icon, bundle.dir@).contains(e),
        !tweak_edits(signer.options).contains(e),
        !glass_edits(signer.options, bundle.dir@).contains(e),
{
    let tweaks = chosen_tweaks(signer.options);
    let loads = signer.options.features.support_ellekit || tweaks.len() > 0;
    let applied = tweaks.map_values(|s: Seq<char>| EditModel::ApplyTweak(s));
    lemma_parts(edit_if(loads, EditModel::InstallElleKit), applied, e);
    lemma_edit_if(loads, EditModel::InstallElleKit, e);
    assert(tweak_edits(signer.options) =~= edit_if(loads, EditModel::InstallElleKit) + applied);
    assert(!applied.contains(e));
}

/// The chosen name and the chosen version are set, and no others.
pub proof fn law_chosen_name_and_version_are_set(
    signer: Signer,
    bundle: BundleFacts,
    bundles: Seq<BundleFacts>,
    team: Option<Seq<char>>,
    text: Seq<char>,
)
    ensures
        planned_edits(signer, bundle, bundles, team).contains(EditModel::SetName(text)) <==> (
        signer.options.custom_name matches Some(n) && n@ == text),
        planned_edits(signer, bundle, bundles, team).contains(EditModel::SetVersion(text)) <==> (
        signer.options.custom_version matches Some(v) && v@ == text),
{
    lemma_name_or_version(signer, bundle, bundles, team, EditModel::SetName(text));
    lemma_name_or_version(signer, bundle, bundles, team, EditModel::SetVersion(text));
}

proof fn lemma_name_or_version(
    signer: Signer,
    bundle: BundleFacts,
    bundles: Seq<BundleFacts>,
    team: Option<Seq<char>>,
    e: EditModel,
)
    requires
        e is SetName || e is SetVersion,
    ensures
        planned_edits(signer, bundle, bundles, team).contains(e) <==> {
            ||| signer.options.custom_name matches Some(n) && e == EditModel::SetName(n@)
            ||| signer.options.custom_version matches Some(v) && e == EditModel::SetVersion(v@)
        },
{
    lemma_planned(signer, bundle, bundles, team, e);
    lemma_plain(signer.options, bundle.dir@, e);
    lemma_later_kinds(signer, bundle, bundles, e);
    if renaming(signer, bundle, bundles, team).contains(e) {
        lemma_renaming_kinds(signer, bundle, bundles, team, e);
    }
}

/// Each feature that was chosen sets its key in the information of the app, and one that was not
/// chosen does not.
pub proof fn law_chosen_features_are_set(
    signer: Signer,
    bundle: BundleFacts,
    bundles: Seq<BundleFacts>,
    team: Option<Seq<char>>,
)
    ensures
        ({
            let plan = planned_edits(signer, bundle, bundles, team);
            let dir = bundle.dir@;
            let f = signer.options.features;
            let on = PlistModel::Boolean(true);
            &&& plan.contains(
                EditModel::SetKey(dir, "MinimumOSVersion"@, PlistModel::Text("7.0"@)),
            ) <==> f.support_minimum_os_version
            &&& plan.contains(EditModel::SetKey(dir, "UIFileSharingEnabled"@, on))
                <==> f.support_file_sharing
            &&& plan.contains(EditModel::SetKey(dir, "UISupportsDocumentBrowser"@, on))
                <==> f.support_file_sharing
            &&& plan.contains(EditModel::SetKey(dir, "UIRequiresFullScreen"@, on))
                <==> f.support_ipad_fullscreen
            &&& plan.contains(EditModel::SetKey(dir, "GCSupportsGameMode"@, on))
                <==> f.support_game_mode
            &&& plan.contains(
                EditModel::SetKey(dir, "CADisableMinimumFrameDurationOnPhone"@, on),
            ) <==> f.support_pro_motion
            &&& plan.contains(
                EditModel::SetKey(
                    dir,
                    "UIDesignRequiresCompatibility"@,
                    PlistModel::Boolean(false),
                ),
            ) <==> f.support_liquid_glass
            &&& plan.contains(EditModel::SetSdkVersion("26.0.0"@)) <==> f.support_liquid_glass
        }),
{
    let dir = bundle.dir@;
    let on = PlistModel::Boolean(true);
    lemma_key_names_differ();
    lemma_key(
        signer,
        bundle,
        bundles,
        team,
        EditModel::SetKey(dir, "MinimumOSVersion"@, PlistModel::Text("7.0"@)),
    );
    lemma_key(signer, bundle, bundles, team, EditModel::SetKey(dir, "UIFileSharingEnabled"@, on));
    lemma_key(
        signer,
        bundle,
        bundles,
        team,
        EditModel::SetKey(dir, "UISupportsDocumentBrowser"@, on),
    );
    lemma_key(signer, bundle, bundles, team, EditModel::SetKey(dir, "UIRequiresFullScreen"@, on));
    lemma_key(signer, bundle, bundles, team, EditModel::SetKey(dir, "GCSupportsGameMode"@, on));
    lemma_key(
        signer,
        bundle,
        bundles,
        team,
        EditModel::SetKey(dir, "CADisableMinimumFrameDurationOnPhone"@, on),
    );
    let glass = EditModel::SetKey(
        dir,
        "UIDesignRequiresCompatibility"@,
        PlistModel::Boolean(false),
    );
    lemma_key(signer, bundle, bundles, team, glass);
    let sdk = EditModel::SetSdkVersion("26.0.0"@);
    lemma_planned(signer, bundle, bundles, team, sdk);
    lemma_plain(signer.options, dir, sdk);
    if renaming(signer, bundle, bundles, team).contains(sdk) {
        lemma_renaming_kinds(signer, bundle, bundles, team, sdk);
    }
    let g = glass_edits(signer.options, dir);
    if signer.options.features.support_liquid_glass {
        assert(g[0] == glass && g[1] == sdk);
    }
}

proof fn lemma_key_names_differ()
    ensures
        "MinimumOSVersion"@.len() == 16,
        "UIFileSharingEnabled"@.len() == 20,
        "UIRequiresFullScreen"@.len() == 20,
        "UIFileSharingEnabled"@[2] == 'F',
        "UIRequiresFullScreen"@[2] == 'R',
        "UISupportsDocumentBrowser"@.len() == 25,
        "GCSupportsGameMode"@.len() == 18,
        "CADisableMinimumFrameDurationOnPhone"@.len() == 36,
        "UIDesignRequiresCompatibility"@.len() == 29,
        "ALTCertificateID"@.len() == 16,
        "ALTCertificateID"@[0] == 'A',
        "MinimumOSVersion"@[0] == 'M',
        "CFBundleIcons"@.len() == 13,
        "CFBundleIcons~ipad"@.len() == 18,
        "CFBundleIcons~ipad"@[0] == 'C',
        "GCSupportsGameMode"@[0] == 'G',
{
    reveal_strlit("MinimumOSVersion");
    reveal_strlit("UIFileSharingEnabled");
    reveal_strlit("UIRequiresFullScreen");
    reveal_strlit("UISupportsDocumentBrowser");
    reveal_strlit("GCSupportsGameMode");
    reveal_strlit("CADisableMinimumFrameDurationOnPhone");
    reveal_strlit("UIDesignRequiresCompatibility");
    reveal_strlit("ALTCertificateID");
    reveal_strlit("CFBundleIcons");
    reveal_strlit("CFBundleIcons~ipad");
}

/// A key that is no certificate and no icon is set by a feature alone.
proof fn lemma_key(
    signer: Signer,
    bundle: BundleFacts,
    bundles: Seq<BundleFacts>,
    team: Option<Seq<char>>,
    e: EditModel,
)
    requires
        e is SetKey,
        e->SetKey_1 != "ALTCertificateID"@,
        e->SetKey_1 != "CFBundleIcons"@,
        e->SetKey_1 != "CFBundleIcons~ipad"@,
    ensures
        planned_edits(signer, bundle, bundles, team).contains(e) <==> {
            let dir = bundle.dir@;
            let f = signer.options.features;
            ||| f.support_minimum_os_version && e == EditModel::SetKey(
                dir,
                "MinimumOSVersion"@,
                PlistModel::Text("7.0"@),
            )
            ||| f.support_file_sharing && e == set_flag(dir, "UIFileSharingEnabled"@, true)
            ||| f.support_file_sharing && e == set_flag(dir, "UISupportsDocumentBrowser"@, true)
            ||| f.support_ipad_fullscreen && e == set_flag(dir, "UIRequiresFullScreen"@, true)
            ||| f.support_game_mode && e == set_flag(dir, "GCSupportsGameMode"@, true)
            ||| f.support_pro_motion && e == set_flag(
                dir,
                "CADisableMinimumFrameDurationOnPhone"@,
                true,
            )
            ||| f.support_liquid_glass && e == set_flag(
                dir,
                "UIDesignRequiresCompatibility"@,
                false,
            )
        },
{
    let dir = bundle.dir@;
    lemma_planned(signer, bundle, bundles, team, e);
    lemma_plain(signer.options, dir, e);
    if renaming(signer, bundle, bundles, team).contains(e) {
        lemma_renaming_kinds(signer, bundle, bundles, team, e);
    }
    let g = glass_edits(signer.options, dir);
    if signer.options.features.support_liquid_glass {
        assert(g[0] == set_flag(dir, "UIDesignRequiresCompatibility"@, false));
    }
}

/// Every bundle with entitlements, and no other, gets the new identifier in the place of the old one:
/// the chosen one, or its own with the team behind it.
pub proof fn law_identifiers_are_replaced(
    signer: Signer,
    bundle: BundleFacts,
    bundles: Seq<BundleFacts>,
    team: Option<Seq<char>>,
    dir: Seq<char>,
    from: Seq<char>,
    to: Seq<char>,
)
    ensures
        planned_edits(signer, bundle, bundles, team).contains(
            EditModel::ReplaceIdentifier(dir, from, to),
        ) <==> {
            &&& bundle.identifier matches Some(own) && own@ == from
            &&& match signer.options.custom_identifier {
                Some(chosen) => to == chosen@,
                None => signer.options.mode != SignerMode::Adhoc && (team matches Some(t) && to
                    == from + seq!['.'] + t),
            }
            &&& exists|i: int|
                0 <= i < bundles.len() && (#[trigger] bundles[i]).entitled && bundles[i].dir@ == dir
        },
{
    reveal_strlit(".");
    assert("."@ =~= seq!['.']);
    let e = EditModel::ReplaceIdentifier(dir, from, to);
    lemma_planned(signer, bundle, bundles, team, e);
    lemma_plain(signer.options, bundle.dir@, e);
    lemma_later_kinds(signer, bundle, bundles, e);
    let identifier = opt_text(bundle.identifier);
    if let (Some(new), Some(own)) = (new_identifier(signer.options, identifier, team), identifier) {
        lemma_renaming(bundles, own, new, bundles.len() as int, e);
    }
}

/// Every chosen tweak is applied, as often and in the order in which it was chosen, and no other. The
/// library that loads tweaks is installed before them, exactly where it or a tweak was chosen.
pub proof fn law_all_tweaks_are_applied(
    signer: Signer,
    bundle: BundleFacts,
    bundles: Seq<BundleFacts>,
    team: Option<Seq<char>>,
) -> (first: int)
    ensures
        ({
            let plan = planned_edits(signer, bundle, bundles, team);
            let tweaks = chosen_tweaks(signer.options);
            &&& 0 <= first && first + tweaks.len() <= plan.len()
            &&& forall|i: int|
                0 <= i < tweaks.len() ==> #[trigger] plan[first + i] == EditModel::ApplyTweak(
                    tweaks[i],
                )
            &&& forall|k: int|
                0 <= k < plan.len() && #[trigger] plan[k] is ApplyTweak ==> first <= k < first
                    + tweaks.len()
            &&& tweaks.len() > 0 || signer.options.features.support_ellekit ==> first > 0
                && plan[first - 1] == EditModel::InstallElleKit
            &&& forall|k: int|
                0 <= k < plan.len() && #[trigger] plan[k] is InstallElleKit ==> k == first - 1 && (
                tweaks.len() > 0 || signer.options.features.support_ellekit)
        }),
{
    let plan = planned_edits(signer, bundle, bundles, team);
    let tweaks = chosen_tweaks(signer.options);
    let before = edits_before_tweaks(signer, bundle, bundles, team);
    let t = tweak_edits(signer.options);
    let g = glass_edits(signer.options, bundle.dir@);
    assert(plan =~= before + t + g);
    let loads = signer.options.features.support_ellekit || tweaks.len() > 0;
    let head = edit_if(loads, EditModel::InstallElleKit);
    let applied = tweaks.map_values(|s: Seq<char>| EditModel::ApplyTweak(s));
    assert(t =~= head + applied);
    let first = before.len() as int + head.len() as int;
    assert forall|k: int| 0 <= k < before.len() implies !(#[trigger] before[k] is ApplyTweak) && !(
    before[k] is InstallElleKit) by {
        let e = before[k];
        let p = plain_edits(signer.options, bundle.dir@);
        let r = renaming(signer, bundle, bundles, team);
        let c = certificate_edits(signer.options.app, signer.certificate, bundle.dir@, bundles);
        let i = icon_edits(signer.options.custom_icon, bundle.dir@);
        assert(before =~= p + r + c + i);
        lemma_parts(p, r, e);
        lemma_parts(p + r, c, e);
        lemma_parts(p + r + c, i, e);
        assert(before.contains(e));
        lemma_plain(signer.options, bundle.dir@, e);
        if r.contains(e) {
            lemma_renaming_kinds(signer, bundle, bundles, team, e);
        }
    }
    assert forall|i: int| 0 <= i < tweaks.len() implies #[trigger] plan[first + i]
        == EditModel::ApplyTweak(tweaks[i]) by {
        assert(plan[first + i] == t[head.len() + i]);
        assert(t[head.len() + i] == applied[i]);
    }
    assert forall|k: int| 0 <= k < plan.len() implies {
        &&& k < before.len() ==> #[trigger] plan[k] == before[k]
        &&& before.len() <= k < first ==> plan[k] == EditModel::InstallElleKit && loads && k == first
            - 1
        &&& k >= first + tweaks.len() ==> plan[k] is SetKey || plan[k] is SetSdkVersion
    } by {
        if k >= first + tweaks.len() {
            assert(plan[k] == g[k - first - tweaks.len()]);
        }
    }
    if loads {
        assert(plan[first - 1] == head[0]);
    }
    first
}

/// The certificate with its key goes to the stores that re-sign apps themselves, each into its own
/// bundle, and nowhere else. Without a certificate, its key or its serial number it goes nowhere.
pub proof fn law_certificate_goes_to_stores_alone(
    signer: Signer,
    bundle: BundleFacts,
    bundles: Seq<BundleFacts>,
    team: Option<Seq<char>>,
    path: Seq<char>,
)
    requires
        planned_edits(signer, bundle, bundles, team).contains(EditModel::WriteCertificate(path)),
    ensures
        signer.certificate matches Some(c) && c.p12_data is Some && c.serial_number is Some,
        match signer.options.app {
            SignerApp::SideStore | SignerApp::AltStore => path == path_join(
                bundle.dir@,
                "ALTCertificate.p12"@,
            ),
            SignerApp::LiveContainerAndSideStore => exists|i: int|
                0 <= i < bundles.len() && path_ends_with(
                    (#[trigger] bundles[i]).dir@,
                    "SideStoreApp.framework"@,
                ) && path == path_join(bundles[i].dir@, "ALTCertificate.p12"@),
            _ => false,
        },
{
    let e = EditModel::WriteCertificate(path);
    lemma_planned(signer, bundle, bundles, team, e);
    lemma_plain(signer.options, bundle.dir@, e);
    if renaming(signer, bundle, bundles, team).contains(e) {
        lemma_renaming_kinds(signer, bundle, bundles, team, e);
    }
    lemma_bundle_named(bundles, "SideStoreApp.framework"@, 0);
}

proof fn lemma_bundle_named(bundles: Seq<BundleFacts>, name: Seq<char>, from: int)
    requires
        0 <= from <= bundles.len(),
    ensures
        from <= bundle_named(bundles, name, from) <= bundles.len(),
        bundle_named(bundles, name, from) < bundles.len() ==> path_ends_with(
            bundles[bundle_named(bundles, name, from)].dir@,
            name,
        ),
        forall|j: int|
            from <= j < bundle_named(bundles, name, from) ==> !path_ends_with(
                (#[trigger] bundles[j]).dir@,
                name,
            ),
    decreases bundles.len() - from,
{
    if from < bundles.len() && !path_ends_with(bundles[from].dir@, name) {
        lemma_bundle_named(bundles, name, from + 1);
    }
}

/// A store that re-signs apps gets the certificate and its serial number, where both are there.
pub proof fn law_store_gets_the_certificate(
    signer: Signer,
    bundle: BundleFacts,
    bundles: Seq<BundleFacts>,
    team: Option<Seq<char>>,
    serial: String,
)
    requires
        signer.options.app == SignerApp::SideStore || signer.options.app == SignerApp::AltStore,
        signer.certificate matches Some(c) && c.p12_data is Some && c.serial_number == Some(serial),
    ensures
        planned_edits(signer, bundle, bundles, team).contains(
            EditModel::WriteCertificate(path_join(bundle.dir@, "ALTCertificate.p12"@)),
        ),
        planned_edits(signer, bundle, bundles, team).contains(
            EditModel::SetKey(bundle.dir@, "ALTCertificateID"@, PlistModel::Text(serial@)),
        ),
{
    let c = certificate_edits(signer.options.app, signer.certificate, bundle.dir@, bundles);
    lemma_planned(signer, bundle, bundles, team, c[0]);
    lemma_planned(signer, bundle, bundles, team, c[1]);
    assert(c.contains(c[0]) && c.contains(c[1]));
}

/// A chosen icon is rendered from its picture in the sizes of both devices into the app, and none is
/// rendered where none was chosen.
pub proof fn law_chosen_icon_is_rendered(
    signer: Signer,
    bundle: BundleFacts,
    bundles: Seq<BundleFacts>,
    team: Option<Seq<char>>,
    e: EditModel,
)
    requires
        e is RenderIcon,
    ensures
        planned_edits(signer, bundle, bundles, team).contains(e) <==> (
        signer.options.custom_icon matches Some(picture) && e->RenderIcon_0 == picture@ && ((
        e->RenderIcon_1 == path_join(bundle.dir@, "FRIcon60x60@2x.png"@) && e->RenderIcon_2 == 120)
            || (e->RenderIcon_1 == path_join(bundle.dir@, "FRIcon76x76@2x~ipad.png"@)
            && e->RenderIcon_2 == 152))),
{
    lemma_planned(signer, bundle, bundles, team, e);
    lemma_plain(signer.options, bundle.dir@, e);
    if renaming(signer, bundle, bundles, team).contains(e) {
        lemma_renaming_kinds(signer, bundle, bundles, team, e);
    }
    let i = icon_edits(signer.options.custom_icon, bundle.dir@);
    if let Some(picture) = signer.options.custom_icon {
        assert(i[0] == EditModel::RenderIcon(
            picture@,
            path_join(bundle.dir@, "FRIcon60x60@2x.png"@),
            120,
        ));
        assert(i[1] == EditModel::RenderIcon(
            picture@,
            path_join(bundle.dir@, "FRIcon76x76@2x~ipad.png"@),
            152,
        ));
        if i.contains(e) {
            let k = choose|k: int| 0 <= k < i.len() && i[k] == e;
            assert(k == 0 || k == 1 || k == 2 || k == 3);
        }
    }
}

/// The identifier of an app stays the chosen one; else it is its own with the team behind it, where a
/// team signs; else there is no new one.
pub proof fn law_new_identifier(
    options: SignerOptions,
    identifier: Option<Seq<char>>,
    team: Option<Seq<char>>,
)
    ensures
        options.custom_identifier matches Some(chosen) ==> new_identifier(options, identifier, team)
            == Some(chosen@),
        options.custom_identifier is None && options.mode == SignerMode::Adhoc ==> new_identifier(
            options,
            identifier,
            team,
        ) is None,
        options.custom_identifier is None && options.mode != SignerMode::Adhoc
            && identifier is Some && team is Some ==> new_identifier(options, identifier, team)
            == Some(identifier->0 + seq!['.'] + team->0),
        options.custom_identifier is None && (identifier is None || team is None)
            ==> new_identifier(options, identifier, team) is None,
{
    reveal_strlit(".");
    assert("."@ =~= seq!['.']);
}

/// With plain options, without a certificate and without a team, nothing is changed.
pub proof fn law_plain_options_change_nothing(
    signer: Signer,
    bundle: BundleFacts,
    bundles: Seq<BundleFacts>,
    app: SignerApp,
    single_profile: bool,
)
    requires
        signer.options == crate::options::plain_options(app, single_profile),
        signer.certificate is None,
    ensures
        planned_edits(signer, bundle, bundles, None).len() == 0,
{
}

/// The files of an icon stand under the primary icon of the bundle, with the icon's name.
pub proof fn law_icon_files_are_named(files: Seq<PlistModel>)
    ensures
        icon_info(files).field("CFBundlePrimaryIcon"@) matches Some(primary) && primary.field(
            "CFBundleIconFiles"@,
        ) == Some(PlistModel::Array(files)) && primary.field("CFBundleIconName"@) == Some(
            PlistModel::Text("FRIcon"@),
        ),
{
    reveal_strlit("CFBundleIconFiles");
    reveal_strlit("CFBundleIconName");
    assert("CFBundleIconFiles"@.len() == 17 && "CFBundleIconName"@.len() == 16);
    reveal_with_fuel(crate::plist_value::key_index, 3);
}

/// Changing a bundle sets at most the identifier in the options of the signer.
pub proof fn law_signer_keeps_its_options(before: Signer, after: Signer)
    requires
        after.same_but_identifier(before),
    ensures
        after.certificate == before.certificate,
        after.provisioning_files == before.provisioning_files,
        after.options.mode == before.options.mode,
        after.options.app == before.options.app,
        after.options.features == before.options.features,
        after.options.tweaks == before.options.tweaks,
        after.options.custom_name == before.options.custom_name,
        after.options.custom_version == before.options.custom_version,
        after.options.custom_icon == before.options.custom_icon,
        after.options.install_mode == before.options.install_mode,
        after.options.refresh == before.options.refresh,
{
}

} // verus!
