//! Signing an app and installing or exporting it.
use crate::dedup::{format_bytes, GB, KB, MB};
use crate::device::{is_blank, Device};
use crate::error::PlumeError;
use crate::options::{SignerInstallMode, SignerMode, SignerOptions};
use crate::paths::{file_name, file_name_of, join_path, path_join};
use crate::platform::DeveloperPlatform;
use crate::plist_value::Instant;
use crate::text::{
    ascii_uppercase, chars_of, join2, join3, join4, opt_text, same_opt, same_text, string_of, texts,
    upper,
};
use crate::tvos::says;
use vstd::prelude::*;

verus! {

/// The platform that an app is signed for.
pub fn target_platform(device: Option<&Device>) -> (r: DeveloperPlatform)
    ensures
        r == match device {
            Some(d) => d.platform(),
            None => DeveloperPlatform::Ios,
        },
{
    match device {
        Some(d) => d.developer_platform(),
        None => DeveloperPlatform::Ios,
    }
}

// ---------------------------------------------------------------------------
// Teams
// ---------------------------------------------------------------------------

/// The team that signs: the one that was chosen, which must be among those of the account, else the
/// first of them.
pub open spec fn team_choice(teams: Seq<Seq<char>>, chosen: Seq<char>) -> Result<
    Seq<char>,
    Seq<char>,
> {
    if teams.len() == 0 {
        Err("No teams available for this account"@)
    } else if chosen.len() == 0 {
        Ok(teams[0])
    } else if teams.contains(chosen) {
        Ok(chosen)
    } else {
        Err(
            "Stored team ID '"@ + chosen
                + "' not found in available teams. Please update your team selection in Settings."@,
        )
    }
}

/// The team that signs.
pub fn choose_team(teams: &Vec<String>, chosen: &str) -> (r: Result<String, String>)
    ensures
        match (r, team_choice(texts(teams@), chosen@)) {
            (Ok(team), Ok(t)) => team@ == t,
            (Err(e), Err(m)) => e@ == m,
            _ => false,
        },
{
    if teams.len() == 0 {
        return Err("No teams available for this account".to_string());
    }
    proof {
        assert(texts(teams@)[0] == teams@[0]@);
        assert(texts(teams@).len() == teams@.len());
    }
    if is_blank(chosen) {
        return Ok(teams[0].clone());
    }
    let mut i: usize = 0;
    while i < teams.len()
        invariant
            i <= teams@.len(),
            chosen@.len() > 0,
            teams@.len() > 0,
            forall|j: int| 0 <= j < i ==> texts(teams@)[j] != chosen@,
        decreases teams@.len() - i,
    {
        if same_text(teams[i].as_str(), chosen) {
            proof {
                assert(texts(teams@)[i as int] == chosen@);
                assert(texts(teams@).contains(chosen@));
            }
            return Ok(chosen.to_string());
        }
        i += 1;
    }
    Err(
        join3(
            "Stored team ID '",
            chosen,
            "' not found in available teams. Please update your team selection in Settings.",
        ),
    )
}

/// The name of the file that a certificate is exported to.
pub fn certificate_file_name(team_id: &str) -> (r: String)
    ensures
        r@ == team_id@ + "_certificate.p12"@,
{
    join2(team_id, "_certificate.p12")
}

/// The certificate with its key, which must be there.
pub fn certificate_data(p12_data: Option<Vec<u8>>) -> (r: Result<Vec<u8>, String>)
    ensures
        match p12_data {
            Some(d) => r == Ok::<Vec<u8>, String>(d),
            None => r matches Err(m) && m@ == "Missing p12 data"@,
        },
{
    match p12_data {
        Some(d) => Ok(d),
        None => Err("Missing p12 data".to_string()),
    }
}

// ---------------------------------------------------------------------------
// The plan
// ---------------------------------------------------------------------------

/// One step of an installation.
#[derive(Debug)]
pub enum InstallStep {
    /// Tell how far things are.
    Report { status: &'static str, progress: i32 },
    /// Tell what is done, without a percentage of its own.
    ReportBusy { status: &'static str, progress: i32 },
    /// Sign in to the developer service and choose the team.
    OpenSession,
    /// Get a certificate of the team.
    PrepareIdentity,
    /// Register the device with the team.
    RegisterDevice,
    ExtractPackage,
    /// Change the bundles, for the team where there is one.
    ModifyBundle,
    RegisterBundle,
    SignBundle,
    /// Pack the app into one file.
    PackForTransfer,
    /// Tell that the app is sent, with its size where that is known, and send it.
    SendToDevice,
    /// Write the pairing file of the app with this identifier to this path on the device.
    InstallPairingFile { identifier: String, path: &'static str },
    InstallOnMac,
    ExportPackage,
    /// Keep the app so that it can be signed again before its profile expires.
    SaveForRefresh,
    Fail(&'static str),
}

/// The content of a step.
pub ghost enum StepModel {
    Report(Seq<char>, int),
    ReportBusy(Seq<char>, int),
    OpenSession,
    PrepareIdentity,
    RegisterDevice,
    ExtractPackage,
    ModifyBundle,
    RegisterBundle,
    SignBundle,
    PackForTransfer,
    SendToDevice,
    InstallPairingFile(Seq<char>, Seq<char>),
    InstallOnMac,
    ExportPackage,
    SaveForRefresh,
    Fail(Seq<char>),
}

impl View for InstallStep {
    type V = StepModel;

    open spec fn view(&self) -> StepModel {
        match self {
            InstallStep::Report { status, progress } => StepModel::Report(status@, *progress as int),
            InstallStep::ReportBusy { status, progress } => StepModel::ReportBusy(
                status@,
                *progress as int,
            ),
            InstallStep::OpenSession => StepModel::OpenSession,
            InstallStep::PrepareIdentity => StepModel::PrepareIdentity,
            InstallStep::RegisterDevice => StepModel::RegisterDevice,
            InstallStep::ExtractPackage => StepModel::ExtractPackage,
            InstallStep::ModifyBundle => StepModel::ModifyBundle,
            InstallStep::RegisterBundle => StepModel::RegisterBundle,
            InstallStep::SignBundle => StepModel::SignBundle,
            InstallStep::PackForTransfer => StepModel::PackForTransfer,
            InstallStep::SendToDevice => StepModel::SendToDevice,
            InstallStep::InstallPairingFile { identifier, path } => StepModel::InstallPairingFile(
                identifier@,
                path@,
            ),
            InstallStep::InstallOnMac => StepModel::InstallOnMac,
            InstallStep::ExportPackage => StepModel::ExportPackage,
            InstallStep::SaveForRefresh => StepModel::SaveForRefresh,
            InstallStep::Fail(m) => StepModel::Fail(m@),
        }
    }
}

/// The contents of a list of steps.
pub open spec fn steps(v: Seq<InstallStep>) -> Seq<StepModel> {
    v.map_values(|s: InstallStep| s@)
}

/// A step ends the plan with an error.
pub open spec fn ends_in_failure(plan: Seq<StepModel>) -> bool {
    plan.len() > 0 && plan.last() is Fail
}

/// The steps up to the signed app, in their order. A step that fails ends them.
pub open spec fn signing_steps(
    mode: SignerMode,
    device: Option<Device>,
    has_account: bool,
) -> Seq<StepModel> {
    let prepare = seq![StepModel::Report("Preparing package..."@, 10)];
    let extract = seq![
        StepModel::Report("Extracting package..."@, 50),
        StepModel::ExtractPackage,
    ];
    match mode {
        SignerMode::Pem => if !has_account {
            prepare + seq![StepModel::Fail("GSA account is required for PEM signing"@)]
        } else if device matches Some(d) && d.udid@.len() == 0 {
            prepare + seq![
                StepModel::Fail("Device UDID is unknown; cannot register it with Apple"@),
            ]
        } else {
            prepare + seq![
                StepModel::Report("Ensuring account is valid..."@, 20),
                StepModel::OpenSession,
                StepModel::PrepareIdentity,
                StepModel::Report("Ensuring device is registered..."@, 30),
            ] + (if device is Some {
                seq![StepModel::RegisterDevice]
            } else {
                seq![]
            }) + extract + seq![
                StepModel::Report("Signing package..."@, 70),
                StepModel::ModifyBundle,
                StepModel::RegisterBundle,
                StepModel::SignBundle,
            ]
        },
        SignerMode::Adhoc => prepare + extract + seq![
            StepModel::Report("Signing package..."@, 70),
            StepModel::ModifyBundle,
            StepModel::SignBundle,
        ],
        SignerMode::NoModify => prepare + extract,
    }
}

/// The pairing file is written where the app has a place for it and its identifier is known.
pub open spec fn pairing_steps(options: SignerOptions) -> Seq<StepModel> {
    match (options.custom_identifier, options.app.pairing_path()) {
        (Some(identifier), Some(path)) if options.app.takes_pairing_file() => seq![
            StepModel::InstallPairingFile(identifier@, path),
        ],
        _ => seq![],
    }
}

/// The steps that bring a signed app where it is to go, with the options as signing leaves them.
pub open spec fn transfer_steps(options: SignerOptions, device: Option<Device>) -> Seq<StepModel> {
    match options.install_mode {
        SignerInstallMode::Export => seq![
            StepModel::Report("Exporting..."@, 90),
            StepModel::ExportPackage,
        ],
        SignerInstallMode::Install => match device {
            None => seq![StepModel::Fail("No device connected for installation"@)],
            Some(d) => if d.is_mac {
                seq![StepModel::Report("Installing..."@, 90), StepModel::InstallOnMac]
            } else {
                (if d.networked() {
                    seq![
                        StepModel::ReportBusy("Packaging for transfer..."@, 70),
                        StepModel::PackForTransfer,
                    ]
                } else {
                    seq![]
                }) + seq![StepModel::SendToDevice] + pairing_steps(options)
            },
        },
    }
}

/// The steps that follow the delivery.
pub open spec fn closing_steps(options: SignerOptions) -> Seq<StepModel> {
    (if options.refresh && options.mode == SignerMode::Pem {
        seq![StepModel::Report("Saving for refresh..."@, 99), StepModel::SaveForRefresh]
    } else {
        seq![]
    }) + seq![StepModel::Report("Finished!"@, 100)]
}

/// The steps that follow signing, in their order. A step that fails ends them.
pub open spec fn delivery_steps(options: SignerOptions, device: Option<Device>) -> Seq<StepModel> {
    let transfer = transfer_steps(options, device);
    if ends_in_failure(transfer) {
        transfer
    } else {
        transfer + closing_steps(options)
    }
}

/// A device that is lent, or none.
pub open spec fn opt_device(device: Option<&Device>) -> Option<Device> {
    match device {
        Some(d) => Some(*d),
        None => None,
    }
}

fn report(status: &'static str, progress: i32) -> (r: InstallStep)
    ensures
        r@ == StepModel::Report(status@, progress as int),
{
    InstallStep::Report { status, progress }
}

fn extend(v: &mut Vec<InstallStep>, more: Vec<InstallStep>)
    ensures
        steps(final(v)@) == steps(old(v)@) + steps(more@),
{
    let ghost before = v@;
    let mut more: Vec<InstallStep> = more;
    let ghost added = more@;
    v.append(&mut more);
    proof {
        assert(steps(v@) =~= steps(before) + steps(added));
    }
}

/// The steps up to the signed app, in their order. A step that fails ends them.
pub fn plan_signing(mode: SignerMode, device: Option<&Device>, has_account: bool) -> (r: Vec<
    InstallStep,
>)
    ensures
        steps(r@) == signing_steps(mode, opt_device(device), has_account),
{
    let ghost prepare = seq![StepModel::Report("Preparing package..."@, 10)];
    let mut v: Vec<InstallStep> = vec![report("Preparing package...", 10)];
    let extract: Vec<InstallStep> = vec![
        report("Extracting package...", 50),
        InstallStep::ExtractPackage,
    ];
    let ghost extracted = seq![
        StepModel::Report("Extracting package..."@, 50),
        StepModel::ExtractPackage,
    ];
    proof {
        assert(steps(v@) =~= prepare);
        assert(steps(extract@) =~= extracted);
    }
    match mode {
        SignerMode::Pem => {
            if !has_account {
                v.push(InstallStep::Fail("GSA account is required for PEM signing"));
                proof {
                    assert(steps(v@) =~= prepare + seq![
                        StepModel::Fail("GSA account is required for PEM signing"@),
                    ]);
                }
                return v;
            }
            if let Some(d) = device {
                if is_blank(d.udid.as_str()) {
                    v.push(
                        InstallStep::Fail("Device UDID is unknown; cannot register it with Apple"),
                    );
                    proof {
                        assert(steps(v@) =~= prepare + seq![
                            StepModel::Fail(
                                "Device UDID is unknown; cannot register it with Apple"@,
                            ),
                        ]);
                    }
                    return v;
                }
            }
            let session: Vec<InstallStep> = vec![
                report("Ensuring account is valid...", 20),
                InstallStep::OpenSession,
                InstallStep::PrepareIdentity,
                report("Ensuring device is registered...", 30),
            ];
            let ghost head = seq![
                StepModel::Report("Ensuring account is valid..."@, 20),
                StepModel::OpenSession,
                StepModel::PrepareIdentity,
                StepModel::Report("Ensuring device is registered..."@, 30),
            ];
            proof {
                assert(steps(session@) =~= head);
            }
            extend(&mut v, session);
            let ghost registered: Seq<StepModel> = if device is Some {
                seq![StepModel::RegisterDevice]
            } else {
                seq![]
            };
            if device.is_some() {
                v.push(InstallStep::RegisterDevice);
            }
            proof {
                assert(steps(v@) =~= prepare + head + registered);
            }
            extend(&mut v, extract);
            let tail: Vec<InstallStep> = vec![
                report("Signing package...", 70),
                InstallStep::ModifyBundle,
                InstallStep::RegisterBundle,
                InstallStep::SignBundle,
            ];
            proof {
                assert(steps(tail@) =~= seq![
                    StepModel::Report("Signing package..."@, 70),
                    StepModel::ModifyBundle,
                    StepModel::RegisterBundle,
                    StepModel::SignBundle,
                ]);
            }
            extend(&mut v, tail);
            v
        },
        SignerMode::Adhoc => {
            extend(&mut v, extract);
            let tail: Vec<InstallStep> = vec![
                report("Signing package...", 70),
                InstallStep::ModifyBundle,
                InstallStep::SignBundle,
            ];
            proof {
                assert(steps(tail@) =~= seq![
                    StepModel::Report("Signing package..."@, 70),
                    StepModel::ModifyBundle,
                    StepModel::SignBundle,
                ]);
            }
            extend(&mut v, tail);
            v
        },
        SignerMode::NoModify => {
            extend(&mut v, extract);
            v
        },
    }
}

fn plan_transfer(options: &SignerOptions, device: Option<&Device>) -> (r: Vec<InstallStep>)
    ensures
        steps(r@) == transfer_steps(*options, opt_device(device)),
{
    match options.install_mode {
        SignerInstallMode::Export => {
            let v: Vec<InstallStep> = vec![report("Exporting...", 90), InstallStep::ExportPackage];
            proof {
                assert(steps(v@) =~= seq![
                    StepModel::Report("Exporting..."@, 90),
                    StepModel::ExportPackage,
                ]);
            }
            v
        },
        SignerInstallMode::Install => match device {
            None => {
                let v: Vec<InstallStep> = vec![
                    InstallStep::Fail("No device connected for installation"),
                ];
                proof {
                    assert(steps(v@) =~= seq![
                        StepModel::Fail("No device connected for installation"@),
                    ]);
                }
                v
            },
            Some(d) => {
                if d.is_mac {
                    let v: Vec<InstallStep> = vec![
                        report("Installing...", 90),
                        InstallStep::InstallOnMac,
                    ];
                    proof {
                        assert(steps(v@) =~= seq![
                            StepModel::Report("Installing..."@, 90),
                            StepModel::InstallOnMac,
                        ]);
                    }
                    return v;
                }
                let mut v: Vec<InstallStep> = Vec::new();
                let ghost head: Seq<StepModel> = if d.networked() {
                    seq![
                        StepModel::ReportBusy("Packaging for transfer..."@, 70),
                        StepModel::PackForTransfer,
                    ]
                } else {
                    seq![]
                };
                if d.is_network() {
                    v.push(
                        InstallStep::ReportBusy {
                            status: "Packaging for transfer...",
                            progress: 70,
                        },
                    );
                    v.push(InstallStep::PackForTransfer);
                }
                proof {
                    assert(steps(v@) =~= head);
                }
                v.push(InstallStep::SendToDevice);
                proof {
                    assert(steps(v@) =~= head + seq![StepModel::SendToDevice]);
                }
                if options.app.supports_pairing_file() {
                    if let (Some(identifier), Some(path)) = (
                        &options.custom_identifier,
                        options.app.pairing_file_path(),
                    ) {
                        v.push(
                            InstallStep::InstallPairingFile { identifier: identifier.clone(), path },
                        );
                    }
                }
                proof {
                    assert(steps(v@) =~= head + seq![StepModel::SendToDevice] + pairing_steps(
                        *options,
                    ));
                }
                v
            },
        },
    }
}

fn plan_closing(options: &SignerOptions) -> (r: Vec<InstallStep>)
    ensures
        steps(r@) == closing_steps(*options),
{
    let mut v: Vec<InstallStep> = Vec::new();
    let ghost head: Seq<StepModel> = if options.refresh && options.mode == SignerMode::Pem {
        seq![StepModel::Report("Saving for refresh..."@, 99), StepModel::SaveForRefresh]
    } else {
        seq![]
    };
    if options.refresh && options.mode == SignerMode::Pem {
        v.push(report("Saving for refresh...", 99));
        v.push(InstallStep::SaveForRefresh);
    }
    proof {
        assert(steps(v@) =~= head);
    }
    v.push(report("Finished!", 100));
    proof {
        assert(steps(v@) =~= head + seq![StepModel::Report("Finished!"@, 100)]);
    }
    v
}

fn failed(v: &Vec<InstallStep>) -> (r: bool)
    ensures
        r == ends_in_failure(steps(v@)),
{
    let n: usize = v.len();
    proof {
        assert(steps(v@).len() == n);
    }
    if n == 0 {
        return false;
    }
    proof {
        assert(steps(v@).last() == v@[n - 1]@);
    }
    match &v[n - 1] {
        InstallStep::Fail(_) => true,
        _ => false,
    }
}

/// The steps that follow signing, in their order, with the options as signing leaves them. A step
/// that fails ends them.
pub fn plan_delivery(options: &SignerOptions, device: Option<&Device>) -> (r: Vec<InstallStep>)
    ensures
        steps(r@) == delivery_steps(*options, opt_device(device)),
{
    let mut v: Vec<InstallStep> = plan_transfer(options, device);
    if failed(&v) {
        return v;
    }
    extend(&mut v, plan_closing(options));
    v
}

/// A step calls the developer service.
pub open spec fn calls_service(s: StepModel) -> bool {
    s is OpenSession || s is PrepareIdentity || s is RegisterDevice || s is RegisterBundle
}

/// The developer service is not called at all for a device whose identifier is unknown: a
/// certificate could be revoked for an installation that cannot succeed.
pub proof fn law_unknown_device_calls_no_service(
    mode: SignerMode,
    device: Device,
    has_account: bool,
    i: int,
)
    requires
        device.udid@.len() == 0,
        0 <= i < signing_steps(mode, Some(device), has_account).len(),
    ensures
        !calls_service(signing_steps(mode, Some(device), has_account)[i]),
{
}

/// The progress that a step tells, if it tells any. Sending starts at seventy.
pub open spec fn told_progress(s: StepModel) -> Option<int> {
    match s {
        StepModel::Report(_, p) => Some(p),
        StepModel::ReportBusy(_, p) => Some(p),
        StepModel::SendToDevice => Some(70),
        _ => None,
    }
}

/// What the steps tell of the progress lies between two values and never falls.
pub open spec fn rising(plan: Seq<StepModel>, low: int, high: int) -> bool {
    forall|i: int, j: int|
        0 <= i <= j < plan.len() && (#[trigger] told_progress(plan[i])) is Some && (
        #[trigger] told_progress(plan[j])) is Some ==> low <= told_progress(plan[i])->0
            <= told_progress(plan[j])->0 <= high
}

proof fn lemma_rising_joined(a: Seq<StepModel>, b: Seq<StepModel>, low: int, mid: int, high: int)
    requires
        low <= mid <= high,
        rising(a, low, mid),
        rising(b, mid, high),
    ensures
        rising(a + b, low, high),
{
    let plan = a + b;
    assert forall|i: int, j: int|
        0 <= i <= j < plan.len() && (#[trigger] told_progress(plan[i])) is Some && (
        #[trigger] told_progress(plan[j])) is Some implies low <= told_progress(plan[i])->0
        <= told_progress(plan[j])->0 <= high by {
        if j < a.len() {
            assert(told_progress(a[i]) is Some && told_progress(a[j]) is Some);
        } else if i >= a.len() {
            assert(told_progress(b[i - a.len()]) is Some && told_progress(b[j - a.len()]) is Some);
        } else {
            assert(told_progress(a[i]) is Some && told_progress(b[j - a.len()]) is Some);
        }
    }
}

proof fn lemma_signing_rises(mode: SignerMode, device: Option<Device>, has_account: bool)
    ensures
        rising(signing_steps(mode, device, has_account), 10, 70),
{
    let prepare = seq![StepModel::Report("Preparing package..."@, 10)];
    let extract = seq![
        StepModel::Report("Extracting package..."@, 50),
        StepModel::ExtractPackage,
    ];
    lemma_rising_joined(prepare, extract, 10, 50, 50);
    match mode {
        SignerMode::Pem => {
            let session = seq![
                StepModel::Report("Ensuring account is valid..."@, 20),
                StepModel::OpenSession,
                StepModel::PrepareIdentity,
                StepModel::Report("Ensuring device is registered..."@, 30),
            ];
            let device_step = if device is Some {
                seq![StepModel::RegisterDevice]
            } else {
                seq![]
            };
            let sign = seq![
                StepModel::Report("Signing package..."@, 70),
                StepModel::ModifyBundle,
                StepModel::RegisterBundle,
                StepModel::SignBundle,
            ];
            assert(rising(session, 20, 30));
            lemma_rising_joined(prepare, session, 10, 20, 30);
            lemma_rising_joined(prepare + session, device_step, 10, 30, 30);
            lemma_rising_joined(prepare + session + device_step, extract, 10, 50, 50);
            assert(rising(sign, 70, 70));
            lemma_rising_joined(prepare + session + device_step + extract, sign, 10, 50, 70);
            let no_account = seq![StepModel::Fail("GSA account is required for PEM signing"@)];
            lemma_rising_joined(prepare, no_account, 10, 10, 70);
            let no_device = seq![
                StepModel::Fail("Device UDID is unknown; cannot register it with Apple"@),
            ];
            lemma_rising_joined(prepare, no_device, 10, 10, 70);
        },
        SignerMode::Adhoc => {
            let sign = seq![
                StepModel::Report("Signing package..."@, 70),
                StepModel::ModifyBundle,
                StepModel::SignBundle,
            ];
            lemma_rising_joined(prepare + extract, sign, 10, 70, 70);
        },
        SignerMode::NoModify => {},
    }
}

proof fn lemma_delivery_rises(options: SignerOptions, device: Option<Device>)
    ensures
        rising(delivery_steps(options, device), 70, 100),
{
    let transfer = transfer_steps(options, device);
    assert(rising(transfer, 70, 90)) by {
        if options.install_mode == SignerInstallMode::Install && device is Some
            && !device->0.is_mac {
            let head = if device->0.networked() {
                seq![
                    StepModel::ReportBusy("Packaging for transfer..."@, 70),
                    StepModel::PackForTransfer,
                ]
            } else {
                seq![]
            };
            let send = seq![StepModel::SendToDevice];
            lemma_rising_joined(head, send, 70, 70, 70);
            lemma_rising_joined(head + send, pairing_steps(options), 70, 90, 90);
        }
    }
    let last = seq![StepModel::Report("Finished!"@, 100)];
    let saving = if options.refresh && options.mode == SignerMode::Pem {
        seq![StepModel::Report("Saving for refresh..."@, 99), StepModel::SaveForRefresh]
    } else {
        seq![]
    };
    lemma_rising_joined(saving, last, 90, 100, 100);
    lemma_rising_joined(transfer, closing_steps(options), 70, 90, 100);
}

/// What is told of the progress never falls, from the first step of signing on to the end.
pub proof fn law_progress_never_falls(
    mode: SignerMode,
    options: SignerOptions,
    device: Option<Device>,
    has_account: bool,
)
    ensures
        rising(signing_steps(mode, device, has_account) + delivery_steps(options, device), 10, 100),
{
    lemma_signing_rises(mode, device, has_account);
    lemma_delivery_rises(options, device);
    lemma_rising_joined(
        signing_steps(mode, device, has_account),
        delivery_steps(options, device),
        10,
        70,
        100,
    );
}

/// Steps that do not fail end by telling that all has finished.
pub proof fn law_successful_delivery_finishes(options: SignerOptions, device: Option<Device>)
    ensures
        ({
            let plan = delivery_steps(options, device);
            plan.len() > 0 && (plan.last() is Fail || plan.last() == StepModel::Report(
                "Finished!"@,
                100,
            ))
        }),
{
    let closing = closing_steps(options);
    assert(closing.last() == StepModel::Report("Finished!"@, 100));
}

/// What is told while a device installs an app stays between the steps before and after it.
pub proof fn law_sending_stays_in_range(progress: i32)
    requires
        0 <= progress <= 100,
    ensures
        70 <= sent_progress(progress as int) <= 90,
{
}

/// What is told of the progress of sending an app, from the percentage of the device. A fifth is
/// rounded towards zero.
pub open spec fn sent_progress(progress: int) -> int {
    if progress >= 0 {
        70 + progress / 5
    } else {
        70 - (-progress) / 5
    }
}

/// What is told of the progress of sending an app, from the percentage of the device.
pub fn sending_progress(progress: i32) -> (r: i32)
    ensures
        r == sent_progress(progress as int),
{
    if progress >= 0 {
        70 + progress / 5
    } else {
        let magnitude: i64 = -(progress as i64);
        (70 - magnitude / 5) as i32
    }
}

/// What is told while an app is sent: its size, where one file is sent.
pub fn upload_status<F: Fn(u64, u64) -> String>(size: Option<u64>, quotient: F) -> (r: String)
    requires
        size matches Some(n) ==> (n >= GB ==> call_requires(quotient, (n, GB))) && (MB <= n < GB
            ==> call_requires(quotient, (n, MB))),
    ensures
        match size {
            None => r@ == "Sending to device..."@,
            Some(n) => exists|s: String| #[trigger]
                size_shown(n, quotient, s) && r@ == "Sending to device ("@ + s@ + ")..."@,
        },
{
    match size {
        None => "Sending to device...".to_string(),
        Some(n) => {
            let s: String = format_bytes(n, quotient);
            proof {
                assert(size_shown(n, quotient, s));
            }
            join3("Sending to device (", s.as_str(), ")...")
        },
    }
}

/// `s` is a number of bytes as it is shown.
pub open spec fn size_shown<F: Fn(u64, u64) -> String>(bytes: u64, quotient: F, s: String) -> bool {
    &&& bytes >= GB ==> exists|q: String| #[trigger]
        call_ensures(quotient, (bytes, GB), q) && s@ == q@ + " GB"@
    &&& MB <= bytes < GB ==> exists|q: String| #[trigger]
        call_ensures(quotient, (bytes, MB), q) && s@ == q@ + " MB"@
    &&& KB <= bytes < MB ==> s@ == crate::text::decimal((bytes / KB) as nat) + " KB"@
    &&& bytes < KB ==> s@ == crate::text::decimal(bytes as nat) + " B"@
}

/// Where an outside step of an installation failed.
#[derive(Debug, Clone, Copy, PartialEq, Eq, Structural)]
pub enum FailedStep {
    /// The task that packs the app did not run to its end.
    PackingTask,
    Packing,
    Sending,
    Other,
}

/// What is said of a step that failed.
pub fn step_error(failed: FailedStep, error: &str) -> (r: String)
    ensures
        r@ == match failed {
            FailedStep::PackingTask => "Packaging task failed: "@ + error@,
            FailedStep::Packing => "Failed to package for transfer: "@ + error@,
            FailedStep::Sending => "Install error: "@ + error@,
            FailedStep::Other => error@,
        },
{
    match failed {
        FailedStep::PackingTask => join2("Packaging task failed: ", error),
        FailedStep::Packing => join2("Failed to package for transfer: ", error),
        FailedStep::Sending => join2("Install error: ", error),
        FailedStep::Other => error.to_string(),
    }
}

// ---------------------------------------------------------------------------
// Apps on a Mac
// ---------------------------------------------------------------------------

/// Where an app is built up on its way to a Mac, and where it goes. It stands in a wrapper, to which
/// a link beside the wrapper leads.
#[derive(Debug)]
pub struct MacStage {
    /// The directory that is moved as a whole.
    pub outer_dir: String,
    pub wrapper_dir: String,
    /// Where the app itself is copied to.
    pub inner_dir: String,
    pub link: String,
    /// Where the link leads, seen from beside it.
    pub link_target: String,
    pub applications_dir: String,
    pub destination: String,
}

/// The paths for an app of this name that is built up in a stage directory.
pub open spec fn is_mac_stage(m: MacStage, stage: Seq<char>, name: Seq<char>) -> bool {
    &&& m.outer_dir@ == path_join(stage, name)
    &&& m.wrapper_dir@ == path_join(m.outer_dir@, "Wrapper"@)
    &&& m.inner_dir@ == path_join(m.wrapper_dir@, name)
    &&& m.link@ == path_join(m.outer_dir@, "WrappedBundle"@)
    &&& m.link_target@ == path_join("Wrapper"@, name)
    &&& m.applications_dir@ == "/Applications/iOS"@
    &&& m.destination@ == path_join(m.applications_dir@, name)
}

/// The paths on an app's way to a Mac, from the directory for temporary files and an identifier of
/// the stage. The path of the app must end in a name.
pub fn mac_stage(temp_dir: &str, id: &str, app_path: &str) -> (r: Result<MacStage, PlumeError>)
    ensures
        match (r, file_name_of(app_path@)) {
            (Ok(m), Some(name)) => is_mac_stage(
                m,
                path_join(temp_dir@, "plume_mac_stage_"@ + upper(id@)),
                name,
            ),
            (Err(e), None) => says(e, "Invalid app path"@),
            _ => false,
        },
{
    let name: String = match file_name(app_path) {
        Some(name) => name,
        None => {
            return Err(PlumeError::Other("Invalid app path".to_string()));
        },
    };
    let stage_name: String = join2("plume_mac_stage_", ascii_uppercase(id).as_str());
    let stage: String = join_path(temp_dir, stage_name.as_str());
    let outer_dir: String = join_path(stage.as_str(), name.as_str());
    let wrapper_dir: String = join_path(outer_dir.as_str(), "Wrapper");
    let inner_dir: String = join_path(wrapper_dir.as_str(), name.as_str());
    let link: String = join_path(outer_dir.as_str(), "WrappedBundle");
    let link_target: String = join_path("Wrapper", name.as_str());
    let applications_dir: String = "/Applications/iOS".to_string();
    let destination: String = join_path(applications_dir.as_str(), name.as_str());
    Ok(
        MacStage {
            outer_dir,
            wrapper_dir,
            inner_dir,
            link,
            link_target,
            applications_dir,
            destination,
        },
    )
}

/// What is said where the app could not be moved to its place.
pub fn mac_move_error(stage: &MacStage) -> (r: PlumeError)
    ensures
        r matches PlumeError::BundleFailedToCopy(path) && path@ == stage.destination@,
{
    PlumeError::BundleFailedToCopy(stage.destination.clone())
}

// ---------------------------------------------------------------------------
// Refreshing
// ---------------------------------------------------------------------------

/// The index of the last dot, or none.
pub open spec fn last_dot(name: Seq<char>, end: int) -> Option<int>
    decreases end,
{
    if end <= 0 {
        None
    } else if name[end - 1] == '.' {
        Some(end - 1)
    } else {
        last_dot(name, end - 1)
    }
}

/// The name under which an app is kept: with an identifier before its extension.
pub open spec fn kept_name(name: Seq<char>, id: Seq<char>) -> Seq<char> {
    match last_dot(name, name.len() as int) {
        Some(dot) => name.take(dot) + "-"@ + id + name.skip(dot),
        None => name + "-"@ + id,
    }
}

/// The name under which an app is kept: with an identifier before its extension.
pub fn refresh_name(original_name: &str, id: &str) -> (r: String)
    ensures
        r@ == kept_name(original_name@, id@),
{
    let chars: Vec<char> = chars_of(original_name);
    let n: usize = chars.len();
    let mut end: usize = n;
    while end > 0
        invariant
            chars@ == original_name@,
            end <= n == chars@.len(),
            last_dot(original_name@, n as int) == last_dot(original_name@, end as int),
        decreases end,
    {
        if chars[end - 1] == '.' {
            let dot: usize = end - 1;
            let head: String = string_of(&chars, 0, dot);
            let tail: String = string_of(&chars, dot, n);
            proof {
                assert(head@ =~= original_name@.take(dot as int));
                assert(tail@ =~= original_name@.skip(dot as int));
            }
            return join4(head.as_str(), "-", id, tail.as_str());
        }
        end -= 1;
    }
    join3(original_name, "-", id)
}

/// Three days in seconds.
pub const THREE_DAYS: i64 = 259_200;

/// The instant at which an app is signed again: three days before its profile expires.
pub fn scheduled_refresh(expiration: Instant) -> (r: Instant)
    requires
        expiration.seconds >= i64::MIN + THREE_DAYS,
    ensures
        r.seconds == expiration.seconds - THREE_DAYS,
        r.seconds + 3 * 24 * 60 * 60 == expiration.seconds,
        r.nanos == expiration.nanos,
{
    Instant { seconds: expiration.seconds - THREE_DAYS, nanos: expiration.nanos }
}

/// An app that is signed again from time to time.
#[derive(Debug)]
pub struct RefreshApp {
    pub name: Option<String>,
    pub bundle_id: Option<String>,
    pub path: String,
    pub scheduled_refresh: Instant,
}

/// A device with such apps.
#[derive(Debug)]
pub struct RefreshDevice {
    pub udid: String,
    pub name: String,
    pub account: String,
    pub apps: Vec<RefreshApp>,
    pub is_mac: bool,
}

/// The index of the first app at or after `from` with a bundle identifier, or the number of apps.
pub open spec fn app_index(apps: Seq<RefreshApp>, id: Option<Seq<char>>, from: int) -> int
    decreases apps.len() - from,
{
    if from >= apps.len() || opt_text(apps[from].bundle_id) == id {
        from
    } else {
        app_index(apps, id, from + 1)
    }
}

/// The apps with one more: it takes the place of the one with the same identifier.
pub open spec fn with_app(apps: Seq<RefreshApp>, app: RefreshApp) -> Seq<RefreshApp> {
    let i = app_index(apps, opt_text(app.bundle_id), 0);
    if i < apps.len() {
        apps.update(i, app)
    } else {
        apps.push(app)
    }
}

impl RefreshDevice {
    /// A device without apps.
    pub fn for_device(device: &Device, account: &str) -> (r: RefreshDevice)
        ensures
            r.udid == device.udid,
            r.name == device.name,
            r.account@ == account@,
            r.apps@.len() == 0,
            r.is_mac == device.is_mac,
    {
        RefreshDevice {
            udid: device.udid.clone(),
            name: device.name.clone(),
            account: account.to_string(),
            apps: Vec::new(),
            is_mac: device.is_mac,
        }
    }

    /// Adds an app, or takes it over in the place of the one with the same identifier.
    pub fn add_app(&mut self, app: RefreshApp)
        ensures
            final(self).apps@ == with_app(old(self).apps@, app),
            *final(self) == (RefreshDevice { apps: final(self).apps, ..*old(self) }),
    {
        let mut i: usize = 0;
        while i < self.apps.len() && !same_opt(&self.apps[i].bundle_id, &app.bundle_id)
            invariant
                i <= self.apps@.len(),
                app_index(self.apps@, opt_text(app.bundle_id), 0) == app_index(
                    self.apps@,
                    opt_text(app.bundle_id),
                    i as int,
                ),
            decreases self.apps@.len() - i,
        {
            i += 1;
        }
        let ghost before = self.apps@;
        if i < self.apps.len() {
            let _ = self.apps.remove(i);
            self.apps.insert(i, app);
            proof {
                assert(self.apps@ =~= before.update(i as int, app));
            }
        } else {
            self.apps.push(app);
        }
    }
}

/// The device to keep after an app was installed: the one that is kept already, or a new one, with
/// the app.
pub fn record_refresh(
    kept: Option<RefreshDevice>,
    device: &Device,
    account: &str,
    app: RefreshApp,
) -> (r: RefreshDevice)
    ensures
        kept matches Some(k) ==> r.apps@ == with_app(k.apps@, app) && r == (RefreshDevice {
            apps: r.apps,
            ..k
        }),
        kept is None ==> r.apps@ == seq![app] && r.udid == device.udid && r.name == device.name
            && r.account@ == account@ && r.is_mac == device.is_mac,
{
    let mut refreshed: RefreshDevice = match kept {
        Some(k) => k,
        None => RefreshDevice::for_device(device, account),
    };
    refreshed.add_app(app);
    proof {
        if kept is None {
            assert(refreshed.apps@ =~= seq![app]);
        }
    }
    refreshed
}

/// After an app was kept, it is the one under its identifier.
pub proof fn law_kept_app_is_found(apps: Seq<RefreshApp>, app: RefreshApp)
    ensures
        ({
            let kept = with_app(apps, app);
            let i = app_index(kept, opt_text(app.bundle_id), 0);
            i < kept.len() && kept[i] == app
        }),
{
    lemma_index_of_kept(apps, app, 0);
}

/// The new app is the first with its identifier, from any place before it on.
proof fn lemma_index_of_kept(apps: Seq<RefreshApp>, app: RefreshApp, from: int)
    requires
        0 <= from <= apps.len(),
        app_index(apps, opt_text(app.bundle_id), 0) == app_index(
            apps,
            opt_text(app.bundle_id),
            from,
        ),
    ensures
        ({
            let kept = with_app(apps, app);
            let i = app_index(kept, opt_text(app.bundle_id), from);
            i < kept.len() && kept[i] == app
        }),
        from <= app_index(apps, opt_text(app.bundle_id), from) <= apps.len(),
    decreases apps.len() - from,
{
    if from < apps.len() && opt_text(apps[from].bundle_id) != opt_text(app.bundle_id) {
        lemma_index_of_kept(apps, app, from + 1);
    }
}

/// The steps `a` and `b` stand in the plan, each once, and `a` stands before `b`.
pub open spec fn once_in_order(plan: Seq<StepModel>, a: StepModel, b: StepModel) -> bool {
    exists|i: int, j: int|
        {
            &&& 0 <= i < j < plan.len()
            &&& #[trigger] plan[i] == a
            &&& #[trigger] plan[j] == b
            &&& forall|k: int| 0 <= k < plan.len() && #[trigger] plan[k] == a ==> k == i
            &&& forall|k: int| 0 <= k < plan.len() && #[trigger] plan[k] == b ==> k == j
        }
}

/// Signing with an account, where it does not fail at once, signs in, prepares the identity, registers
/// the device where there is one, extracts the package, changes its bundles, registers them and signs
/// them: each once, in this order.
pub proof fn law_signing_with_an_account(device: Option<Device>)
    requires
        device matches Some(d) ==> d.udid@.len() > 0,
    ensures
        ({
            let plan = signing_steps(SignerMode::Pem, device, true);
            &&& once_in_order(plan, StepModel::OpenSession, StepModel::PrepareIdentity)
            &&& once_in_order(plan, StepModel::PrepareIdentity, StepModel::ExtractPackage)
            &&& once_in_order(plan, StepModel::ExtractPackage, StepModel::ModifyBundle)
            &&& once_in_order(plan, StepModel::ModifyBundle, StepModel::RegisterBundle)
            &&& once_in_order(plan, StepModel::RegisterBundle, StepModel::SignBundle)
            &&& device is Some ==> once_in_order(
                plan,
                StepModel::PrepareIdentity,
                StepModel::RegisterDevice,
            ) && once_in_order(plan, StepModel::RegisterDevice, StepModel::RegisterBundle)
            &&& device is None ==> !plan.contains(StepModel::RegisterDevice)
            &&& forall|k: int| 0 <= k < plan.len() ==> !(#[trigger] plan[k] is Fail)
        }),
{
    let plan = signing_steps(SignerMode::Pem, device, true);
    let s = if device is Some {
        1int
    } else {
        0int
    };
    assert(plan.len() == 11 + s);
    assert(plan[2] == StepModel::OpenSession);
    assert(plan[3] == StepModel::PrepareIdentity);
    assert(device is Some ==> plan[5] == StepModel::RegisterDevice);
    assert(plan[6 + s] == StepModel::ExtractPackage);
    assert(plan[8 + s] == StepModel::ModifyBundle);
    assert(plan[9 + s] == StepModel::RegisterBundle);
    assert(plan[10 + s] == StepModel::SignBundle);
    assert(plan[0] is Report && plan[1] is Report && plan[4] is Report && plan[5 + s] is Report
        && plan[7 + s] is Report);
    assert forall|k: int| 0 <= k < plan.len() implies #[trigger] plan[k] is Report || k == 2 || k == 3
        || (k == 5 && s == 1) || k == 6 + s || k == 8 + s || k == 9 + s || k == 10 + s by {}
}

/// Without an account nothing is signed for a team: the plan fails, and no step calls the service,
/// opens the package or changes it. The same holds where the device to register is unknown.
pub proof fn law_failed_signing_does_nothing(device: Option<Device>, has_account: bool)
    requires
        !has_account || (device matches Some(d) && d.udid@.len() == 0),
    ensures
        ({
            let plan = signing_steps(SignerMode::Pem, device, has_account);
            &&& plan.len() > 0 && plan.last() is Fail
            &&& forall|k: int|
                0 <= k < plan.len() ==> #[trigger] plan[k] is Fail || plan[k] is Report
        }),
{
}

/// Signing without a team extracts, changes and signs, in this order, and calls no service. Without
/// any signing the package is only extracted.
#[verifier::spinoff_prover]
#[verifier::rlimit(40)]
pub proof fn law_signing_without_a_team(device: Option<Device>, has_account: bool)
    ensures
        ({
            let plan = signing_steps(SignerMode::Adhoc, device, has_account);
            &&& once_in_order(plan, StepModel::ExtractPackage, StepModel::ModifyBundle)
            &&& once_in_order(plan, StepModel::ModifyBundle, StepModel::SignBundle)
            &&& forall|k: int|
                0 <= k < plan.len() ==> !calls_service(#[trigger] plan[k]) && !(plan[k] is Fail)
        }),
        ({
            let plan = signing_steps(SignerMode::NoModify, device, has_account);
            &&& plan.contains(StepModel::ExtractPackage)
            &&& forall|k: int|
                0 <= k < plan.len() ==> #[trigger] plan[k] is Report || plan[k]
                    == StepModel::ExtractPackage
        }),
{
    let plan = signing_steps(SignerMode::Adhoc, device, has_account);
    assert(plan.len() == 6);
    assert(plan[2] == StepModel::ExtractPackage);
    assert(plan[4] == StepModel::ModifyBundle);
    assert(plan[5] == StepModel::SignBundle);
    assert(plan[0] is Report && plan[1] is Report && plan[3] is Report);
    assert forall|k: int| 0 <= k < plan.len() implies #[trigger] plan[k] is Report || k == 2 || k == 4
        || k == 5 by {}
    assert(once_in_order(plan, plan[2], plan[4]));
    assert(once_in_order(plan, plan[4], plan[5]));
    lemma_unsigned_plan(device, has_account);
}

proof fn lemma_unsigned_plan(device: Option<Device>, has_account: bool)
    ensures
        ({
            let plan = signing_steps(SignerMode::NoModify, device, has_account);
            &&& plan.contains(StepModel::ExtractPackage)
            &&& forall|k: int|
                0 <= k < plan.len() ==> #[trigger] plan[k] is Report || plan[k]
                    == StepModel::ExtractPackage
        }),
{
    let plan = signing_steps(SignerMode::NoModify, device, has_account);
    assert(plan.len() == 3);
    assert(plan[2] == StepModel::ExtractPackage);
}

/// An app that is exported goes to no device, whether there is one or not.
pub proof fn law_exported_app_goes_to_no_device(options: SignerOptions, device: Option<Device>)
    requires
        options.install_mode == SignerInstallMode::Export,
    ensures
        delivery_steps(options, device).contains(StepModel::ExportPackage),
        forall|k: int|
            0 <= k < delivery_steps(options, device).len() ==> {
                let step = #[trigger] delivery_steps(options, device)[k];
                step is Report || step is ExportPackage || step is SaveForRefresh
            },
{
    let transfer = transfer_steps(options, device);
    assert(transfer.len() == 2);
    assert(!ends_in_failure(transfer));
    lemma_joined(transfer, closing_steps(options));
    lemma_closing(options);
    assert(delivery_steps(options, device)[1] == StepModel::ExportPackage);
}

/// An app for the machine itself is installed there and sent nowhere.
pub proof fn law_app_for_this_machine_is_sent_nowhere(options: SignerOptions, device: Device)
    requires
        options.install_mode == SignerInstallMode::Install,
        device.is_mac,
    ensures
        delivery_steps(options, Some(device)).contains(StepModel::InstallOnMac),
        forall|k: int|
            0 <= k < delivery_steps(options, Some(device)).len() ==> {
                let step = #[trigger] delivery_steps(options, Some(device))[k];
                step is Report || step is InstallOnMac || step is SaveForRefresh
            },
{
    let transfer = transfer_steps(options, Some(device));
    assert(transfer.len() == 2);
    assert(!ends_in_failure(transfer));
    lemma_joined(transfer, closing_steps(options));
    lemma_closing(options);
    assert(delivery_steps(options, Some(device))[1] == StepModel::InstallOnMac);
}

/// An app for a device is sent to it, once; over the network it is packed before. A file for pairing
/// goes to the app with the chosen identifier, behind it.
pub proof fn law_app_is_sent_to_the_device(options: SignerOptions, device: Device)
    requires
        options.install_mode == SignerInstallMode::Install,
        !device.is_mac,
    ensures
        ({
            let plan = delivery_steps(options, Some(device));
            let s = if device.networked() {
                2int
            } else {
                0int
            };
            &&& s < plan.len() && plan[s] == StepModel::SendToDevice
            &&& forall|k: int| 0 <= k < plan.len() && #[trigger] plan[k] is SendToDevice ==> k == s
            &&& forall|k: int|
                0 <= k < plan.len() ==> (#[trigger] plan[k] is PackForTransfer <==> k == s - 1)
            &&& forall|k: int|
                0 <= k < plan.len() && #[trigger] plan[k] is InstallPairingFile ==> k > s
                    && options.custom_identifier is Some && plan[k]->InstallPairingFile_0
                    == options.custom_identifier->0@
            &&& forall|k: int|
                0 <= k < plan.len() ==> !(#[trigger] plan[k] is ExportPackage) && !(
                plan[k] is InstallOnMac) && !(plan[k] is Fail)
        }),
{
    let transfer = transfer_steps(options, Some(device));
    let pairing = pairing_steps(options);
    let head = if device.networked() {
        seq![
            StepModel::ReportBusy("Packaging for transfer..."@, 70),
            StepModel::PackForTransfer,
        ]
    } else {
        seq![]
    };
    let send = seq![StepModel::SendToDevice];
    lemma_joined(head, send);
    lemma_joined(head + send, pairing);
    assert(transfer == head + send + pairing);
    assert(pairing.len() <= 1);
    assert(pairing.len() == 1 ==> pairing[0] is InstallPairingFile);
    assert(!(transfer.last() is Fail)) by {
        if pairing.len() == 0 {
            assert(transfer.last() == (head + send)[head.len() as int]);
        } else {
            assert(transfer.last() == pairing[0]);
        }
    }
    lemma_joined(transfer, closing_steps(options));
    lemma_closing(options);
    let plan = delivery_steps(options, Some(device));
    let s = head.len() as int;
    assert(plan[s] == transfer[s]);
    assert forall|k: int| 0 <= k < plan.len() implies {
        &&& k < s ==> #[trigger] plan[k] == head[k]
        &&& k == s ==> plan[k] == StepModel::SendToDevice
        &&& s < k < transfer.len() ==> plan[k] == pairing[k - s - 1]
        &&& k >= transfer.len() ==> plan[k] is Report || plan[k] is SaveForRefresh
    } by {
        if k < transfer.len() {
            assert(plan[k] == transfer[k]);
        } else {
            assert(plan[k] == closing_steps(options)[k - transfer.len()]);
        }
    }
}

/// An app cannot be installed without a device: the plan is to fail.
pub proof fn law_no_device_no_installation(options: SignerOptions)
    requires
        options.install_mode == SignerInstallMode::Install,
    ensures
        delivery_steps(options, None).len() == 1,
        delivery_steps(options, None)[0] is Fail,
{
}

/// An app that was signed for a team is kept for later exactly where that was chosen.
pub proof fn law_app_is_kept_where_chosen(options: SignerOptions, device: Option<Device>)
    requires
        options.install_mode == SignerInstallMode::Export || device is Some,
    ensures
        (exists|k: int|
            0 <= k < delivery_steps(options, device).len() && #[trigger] delivery_steps(
                options,
                device,
            )[k] is SaveForRefresh) <==> options.refresh && options.mode == SignerMode::Pem,
{
    let transfer = transfer_steps(options, device);
    let closing = closing_steps(options);
    let plan = delivery_steps(options, device);
    lemma_joined(transfer, closing);
    lemma_closing(options);
    if options.install_mode == SignerInstallMode::Export {
        law_exported_app_goes_to_no_device(options, device);
        assert(transfer.len() == 2 && !(transfer[0] is SaveForRefresh) && !(
        transfer[1] is SaveForRefresh));
        assert(plan == transfer + closing);
    } else if device->0.is_mac {
        law_app_for_this_machine_is_sent_nowhere(options, device->0);
        assert(transfer.len() == 2 && !(transfer[0] is SaveForRefresh) && !(
        transfer[1] is SaveForRefresh));
        assert(plan == transfer + closing);
    } else {
        law_app_is_sent_to_the_device(options, device->0);
        let pairing = pairing_steps(options);
        assert(forall|k: int| 0 <= k < transfer.len() ==> !(#[trigger] transfer[k] is SaveForRefresh));
        assert(!ends_in_failure(transfer)) by {
            if ends_in_failure(transfer) {
                assert(plan[transfer.len() - 1] is Fail);
            }
        }
        assert(plan == transfer + closing);
    }
    if options.refresh && options.mode == SignerMode::Pem {
        assert(plan[transfer.len() as int + 1] == closing[1]);
    }
}

proof fn lemma_closing(options: SignerOptions)
    ensures
        ({
            let closing = closing_steps(options);
            let saves = options.refresh && options.mode == SignerMode::Pem;
            &&& closing.len() == if saves {
                3int
            } else {
                1int
            }
            &&& closing[0] is Report
            &&& saves ==> closing[1] is SaveForRefresh && closing[2] is Report
            &&& forall|k: int|
                0 <= k < closing.len() ==> #[trigger] closing[k] is Report
                    || closing[k] is SaveForRefresh
            &&& !saves ==> forall|k: int| 0 <= k < closing.len() ==> #[trigger] closing[k] is Report
        }),
{
}

proof fn lemma_joined(a: Seq<StepModel>, b: Seq<StepModel>)
    ensures
        (a + b).len() == a.len() + b.len(),
        forall|k: int| 0 <= k < a.len() ==> #[trigger] (a + b)[k] == a[k],
        forall|k: int| a.len() <= k < (a + b).len() ==> #[trigger] (a + b)[k] == b[k - a.len()],
        forall|k: int| 0 <= k < b.len() ==> (a + b)[a.len() + k] == #[trigger] b[k],
{
}

/// The team is one of those that the account has: the chosen one where there is one, else the first.
/// A chosen one that the account does not have is an error, and so is an account without teams.
pub proof fn law_team_is_one_of_the_account(teams: Seq<Seq<char>>, chosen: Seq<char>)
    ensures
        team_choice(teams, chosen) matches Ok(t) ==> teams.contains(t) && (chosen.len() > 0 ==> t
            == chosen),
        team_choice(teams, chosen) is Ok <==> teams.len() > 0 && (chosen.len() == 0
            || teams.contains(chosen)),
        teams.len() > 0 && chosen.len() == 0 ==> team_choice(teams, chosen) == Ok::<
            Seq<char>,
            Seq<char>,
        >(teams[0]),
{
}

/// The name under which an app is kept has the identifier before its extension.
pub proof fn law_kept_name_keeps_the_extension(
    stem: Seq<char>,
    extension: Seq<char>,
    id: Seq<char>,
)
    requires
        !extension.contains('.'),
        !stem.contains('.'),
    ensures
        kept_name(stem + seq!['.'] + extension, id) == stem + seq!['-'] + id + seq!['.']
            + extension,
        kept_name(stem, id) == stem + seq!['-'] + id,
{
    let name = stem + seq!['.'] + extension;
    let dot = stem.len() as int;
    reveal_strlit("-");
    assert("-"@ =~= seq!['-']);
    assert(name[dot] == '.');
    lemma_last_dot(name, name.len() as int, dot);
    assert(name.take(dot) =~= stem);
    assert(name.skip(dot) =~= seq!['.'] + extension);
    assert(stem + "-"@ + id + (seq!['.'] + extension) =~= stem + seq!['-'] + id + seq!['.']
        + extension);
    lemma_no_dot(stem, stem.len() as int);
}

proof fn lemma_last_dot(name: Seq<char>, end: int, dot: int)
    requires
        0 <= dot < end <= name.len(),
        name[dot] == '.',
        forall|i: int| dot < i < end ==> name[i] != '.',
    ensures
        last_dot(name, end) == Some(dot),
    decreases end,
{
    if end - 1 > dot {
        lemma_last_dot(name, end - 1, dot);
    }
}

proof fn lemma_no_dot(name: Seq<char>, end: int)
    requires
        0 <= end <= name.len(),
        !name.contains('.'),
    ensures
        last_dot(name, end) is None,
    decreases end,
{
    if end > 0 {
        assert(name.contains(name[end - 1]));
        lemma_no_dot(name, end - 1);
    }
}

/// Keeping an app for later leaves every app with another identifier where it is, and adds at most
/// one.
pub proof fn law_other_apps_are_kept(apps: Seq<RefreshApp>, app: RefreshApp, i: int)
    requires
        0 <= i < apps.len(),
        opt_text(apps[i].bundle_id) != opt_text(app.bundle_id),
    ensures
        i < with_app(apps, app).len() && with_app(apps, app)[i] == apps[i],
        apps.len() <= with_app(apps, app).len() <= apps.len() + 1,
        (exists|j: int|
            0 <= j < apps.len() && opt_text((#[trigger] apps[j]).bundle_id) == opt_text(
                app.bundle_id,
            )) ==> with_app(apps, app).len() == apps.len(),
{
    lemma_app_index(apps, opt_text(app.bundle_id), 0);
}

proof fn lemma_app_index(apps: Seq<RefreshApp>, id: Option<Seq<char>>, from: int)
    requires
        0 <= from <= apps.len(),
    ensures
        from <= app_index(apps, id, from) <= apps.len(),
        app_index(apps, id, from) < apps.len() ==> opt_text(
            apps[app_index(apps, id, from)].bundle_id,
        ) == id,
        forall|j: int|
            from <= j < app_index(apps, id, from) ==> opt_text((#[trigger] apps[j]).bundle_id) != id,
    decreases apps.len() - from,
{
    if from < apps.len() && opt_text(apps[from].bundle_id) != id {
        lemma_app_index(apps, id, from + 1);
    }
}

/// Sending more never shows less, and goes from seventy to ninety.
pub proof fn law_sending_never_falls(a: int, b: int)
    requires
        0 <= a <= b <= 100,
    ensures
        sent_progress(a) <= sent_progress(b),
        sent_progress(0) == 70,
        sent_progress(100) == 90,
{
}

/// A file for pairing is installed exactly where the app has a place for one and an identifier was
/// chosen, and it goes to that place.
pub proof fn law_pairing_file_is_installed(options: SignerOptions)
    ensures
        pairing_steps(options).len() <= 1,
        pairing_steps(options).len() == 1 <==> options.custom_identifier is Some
            && options.app.pairing_path() is Some && options.app.takes_pairing_file(),
        pairing_steps(options).len() == 1 ==> pairing_steps(options)[0]
            == StepModel::InstallPairingFile(
            options.custom_identifier->0@,
            options.app.pairing_path()->0,
        ),
{
}

/// An app for the machine itself is staged under its own name, inside and outside its wrapper, and
/// installed under it.
pub proof fn law_staged_app_keeps_its_name(m: MacStage, stage: Seq<char>, name: Seq<char>)
    requires
        is_mac_stage(m, stage, name),
        name.len() > 0,
        !name.contains('/'),
        name != seq!['.'],
        name != seq!['.', '.'],
    ensures
        crate::paths::file_name_of(m.destination@) == Some(name),
        crate::paths::file_name_of(m.inner_dir@) == Some(name),
        crate::paths::file_name_of(m.outer_dir@) == Some(name),
        crate::paths::file_name_of(m.link_target@) == Some(name),
        crate::paths::file_name_of(m.link@) == Some("WrappedBundle"@),
        crate::paths::file_name_of(m.wrapper_dir@) == Some("Wrapper"@),
{
    reveal_strlit("WrappedBundle");
    reveal_strlit("Wrapper");
    crate::paths::law_joined_file_name(m.applications_dir@, name);
    crate::paths::law_joined_file_name(m.wrapper_dir@, name);
    crate::paths::law_joined_file_name(stage, name);
    crate::paths::law_joined_file_name("Wrapper"@, name);
    assert(!"WrappedBundle"@.contains('/'));
    assert("WrappedBundle"@.len() == 13 && "Wrapper"@.len() == 7);
    crate::paths::law_joined_file_name(m.outer_dir@, "WrappedBundle"@);
    assert(!"Wrapper"@.contains('/'));
    crate::paths::law_joined_file_name(m.outer_dir@, "Wrapper"@);
}

/// An app is signed again three days before its profile expires.
pub proof fn law_three_days()
    ensures
        THREE_DAYS == 3 * 24 * 60 * 60,
{
}

/// Every five parts in a hundred that are sent count for one, above and below the start alike.
pub proof fn law_sending_counts_in_fives(a: int)
    requires
        a >= 0,
    ensures
        sent_progress(a + 5) == sent_progress(a) + 1,
        sent_progress(-a) + sent_progress(a) == 140,
{
}

/// A size is shown in the largest unit that it reaches.
pub proof fn law_size_has_its_unit<F: Fn(u64, u64) -> String>(bytes: u64, quotient: F, s: String)
    requires
        size_shown(bytes, quotient, s),
    ensures
        bytes < 1_000 ==> s@ == crate::text::decimal(bytes as nat) + " B"@,
        1_000 <= bytes < 1_000_000 ==> s@ == crate::text::decimal((bytes as int / 1_000) as nat)
            + " KB"@,
        1_000_000 <= bytes < 1_000_000_000 ==> s@.len() >= 3 && s@.skip(s@.len() - 3)
            == " MB"@,
        bytes >= 1_000_000_000 ==> s@.len() >= 3 && s@.skip(s@.len() - 3) == " GB"@,
{
    reveal_strlit(" MB");
    reveal_strlit(" GB");
    if 1_000_000 <= bytes < 1_000_000_000 {
        let q = choose|q: String| #[trigger]
            call_ensures(quotient, (bytes, MB), q) && s@ == q@ + " MB"@;
        assert(s@.skip(s@.len() - 3) =~= " MB"@);
    }
    if bytes >= 1_000_000_000 {
        let q = choose|q: String| #[trigger]
            call_ensures(quotient, (bytes, GB), q) && s@ == q@ + " GB"@;
        assert(s@.skip(s@.len() - 3) =~= " GB"@);
    }
}

} // verus!
