//! Registering the bundles of an app with the developer service.
use crate::error::PlumeError;
use crate::options::{SignerApp, SignerMode, SignerOptions};
use crate::paths::{join_path, path_join, paths_equal, same_path};
use crate::platform::{opt_str, DeveloperPlatform};
use crate::plist_model::{group_plist_models, list_model};
use crate::plist_value::{Instant, PlistDictionary, PlistModel, PlistValue};
use crate::provision::{opt_bytes, outcome, profile_refusal, MobileProvision};
use crate::signer::{BundleFacts, BundleType, Signer};
use crate::text::{is_prefix, join3, join4, opt_text, same_text, starts_with, texts};
use crate::tvos::says;
use vstd::prelude::*;

verus! {

broadcast use group_plist_models;

fn other(message: &str) -> (r: PlumeError)
    ensures
        says(r, message@),
{
    PlumeError::Other(message.to_string())
}

// ---------------------------------------------------------------------------
// Which bundles are registered
// ---------------------------------------------------------------------------

/// The bundle is registered: an app or an extension that carries entitlements. With a single
/// profile, and but for the television, only the app itself is.
pub open spec fn is_registered(
    options: SignerOptions,
    platform: DeveloperPlatform,
    root: Seq<char>,
    bundle: BundleFacts,
) -> bool {
    &&& options.mode == SignerMode::Pem
    &&& bundle.entitled
    &&& !(options.embedding.single_profile && platform != DeveloperPlatform::Tvos && !same_path(
        bundle.dir@,
        root,
    ))
    &&& bundle.kind == BundleType::AppExtension || bundle.kind == BundleType::App
}

/// The indexes of the first `n` bundles that are registered.
pub open spec fn registered(
    options: SignerOptions,
    platform: DeveloperPlatform,
    root: Seq<char>,
    bundles: Seq<BundleFacts>,
    n: int,
) -> Seq<usize>
    decreases n,
{
    if n <= 0 {
        seq![]
    } else {
        let head = registered(options, platform, root, bundles, n - 1);
        if is_registered(options, platform, root, bundles[n - 1]) {
            head.push((n - 1) as usize)
        } else {
            head
        }
    }
}

impl Signer {
    /// The indexes of the bundles to register. Nothing is registered where no team signs.
    pub fn registration_targets(
        &self,
        root: &str,
        bundles: &Vec<BundleFacts>,
        platform: DeveloperPlatform,
    ) -> (r: Vec<usize>)
        ensures
            r@ == registered(self.options, platform, root@, bundles@, bundles@.len() as int),
    {
        let mut r: Vec<usize> = Vec::new();
        let mut i: usize = 0;
        while i < bundles.len()
            invariant
                i <= bundles@.len(),
                r@ == registered(self.options, platform, root@, bundles@, i as int),
            decreases bundles@.len() - i,
        {
            let b: &BundleFacts = &bundles[i];
            let kept: bool = self.options.mode == SignerMode::Pem && b.entitled && !(
            self.options.embedding.single_profile && platform != DeveloperPlatform::Tvos
                && !paths_equal(b.dir.as_str(), root)) && (b.kind == BundleType::AppExtension
                || b.kind == BundleType::App);
            if kept {
                r.push(i);
            }
            i += 1;
        }
        r
    }
}

/// The app itself is registered wherever anything of its kind is.
pub proof fn law_single_profile_registers_the_app(
    options: SignerOptions,
    platform: DeveloperPlatform,
    root: Seq<char>,
    bundle: BundleFacts,
)
    requires
        options.mode == SignerMode::Pem,
        bundle.entitled,
        bundle.kind == BundleType::App,
        same_path(bundle.dir@, root),
    ensures
        is_registered(options, platform, root, bundle),
{
}

// ---------------------------------------------------------------------------
// App groups
// ---------------------------------------------------------------------------

/// The name under which a group is asked for: with the team behind it, but not where the app is only
/// refreshed.
pub open spec fn group_name(group: Seq<char>, team: Seq<char>, is_refresh: bool) -> Seq<char> {
    if is_refresh {
        group
    } else {
        group + "."@ + team
    }
}

/// The names under which the first `n` groups are asked for.
pub open spec fn group_names(
    groups: Seq<String>,
    team: Seq<char>,
    is_refresh: bool,
    n: int,
) -> Seq<Seq<char>>
    decreases n,
{
    if n <= 0 {
        seq![]
    } else {
        let head = group_names(groups, team, is_refresh, n - 1);
        if is_prefix("group."@, groups[n - 1]@) {
            head.push(group_name(groups[n - 1]@, team, is_refresh))
        } else {
            head
        }
    }
}

/// The names under which the groups of an app are asked for.
pub fn app_group_requests(groups: &Vec<String>, team_id: &str, is_refresh: bool) -> (r: Vec<String>)
    ensures
        texts(r@) == group_names(groups@, team_id@, is_refresh, groups@.len() as int),
{
    let mut r: Vec<String> = Vec::new();
    let mut i: usize = 0;
    proof {
        assert(texts(r@) =~= seq![]);
    }
    while i < groups.len()
        invariant
            i <= groups@.len(),
            texts(r@) == group_names(groups@, team_id@, is_refresh, i as int),
        decreases groups@.len() - i,
    {
        if starts_with(groups[i].as_str(), "group.") {
            let name: String = if is_refresh {
                groups[i].clone()
            } else {
                join3(groups[i].as_str(), ".", team_id)
            };
            let ghost before = r@;
            let ghost shown = name@;
            r.push(name);
            proof {
                assert(texts(r@) =~= texts(before).push(shown));
            }
        }
        i += 1;
    }
    r
}

/// The group that every app has.
pub open spec fn default_group(id: Seq<char>, team: Seq<char>) -> Seq<char> {
    "group."@ + id + "."@ + team
}

/// The group that every app has, where it is not among those that the app got.
pub fn missing_default_group(id: &str, team_id: &str, group_ids: &Vec<String>) -> (r: Option<String>)
    ensures
        opt_text(r) == if texts(group_ids@).contains(default_group(id@, team_id@)) {
            None
        } else {
            Some(default_group(id@, team_id@))
        },
{
    let name: String = join4("group.", id, ".", team_id);
    let mut i: usize = 0;
    while i < group_ids.len()
        invariant
            name@ == default_group(id@, team_id@),
            i <= group_ids@.len(),
            forall|j: int| 0 <= j < i ==> texts(group_ids@)[j] != name@,
        decreases group_ids@.len() - i,
    {
        if same_text(group_ids[i].as_str(), name.as_str()) {
            proof {
                assert(texts(group_ids@)[i as int] == name@);
                assert(texts(group_ids@).contains(name@));
            }
            return None;
        }
        i += 1;
    }
    Some(name)
}

/// The groups that a store writes into its own information, among the first `n`.
pub open spec fn alt_groups(groups: Seq<String>, team: Seq<char>, n: int) -> Seq<PlistModel>
    decreases n,
{
    if n <= 0 {
        seq![]
    } else {
        alt_groups(groups, team, n - 1).push(PlistModel::Text(groups[n - 1]@ + "."@ + team))
    }
}

/// The groups that a store writes into its own information; none for other apps and where the app is
/// only refreshed.
pub fn alt_app_groups(app: SignerApp, is_refresh: bool, groups: &Vec<String>, team_id: &str) -> (r:
    Option<PlistValue>)
    ensures
        match r {
            Some(v) => !is_refresh && (app == SignerApp::SideStore || app == SignerApp::AltStore)
                && v@ == PlistModel::Array(
                alt_groups(groups@, team_id@, groups@.len() as int),
            ),
            None => is_refresh || !(app == SignerApp::SideStore || app == SignerApp::AltStore),
        },
{
    if is_refresh || !(app == SignerApp::SideStore || app == SignerApp::AltStore) {
        return None;
    }
    let mut items: Vec<PlistValue> = Vec::new();
    let mut i: usize = 0;
    proof {
        assert(list_model(items@) =~= seq![]);
    }
    while i < groups.len()
        invariant
            i <= groups@.len(),
            list_model(items@) == alt_groups(groups@, team_id@, i as int),
        decreases groups@.len() - i,
    {
        let ghost before = items@;
        let text: String = join3(groups[i].as_str(), ".", team_id);
        let ghost shown = text@;
        items.push(PlistValue::Text(text));
        proof {
            assert(list_model(items@) =~= list_model(before).push(PlistModel::Text(shown)));
        }
        i += 1;
    }
    Some(PlistValue::Array(items))
}

// ---------------------------------------------------------------------------
// One registration
// ---------------------------------------------------------------------------

/// What a registration waits for.
#[derive(Debug, Clone, Copy, PartialEq, Eq, Structural)]
pub enum RegistrationPhase {
    EnsuringAppId,
    GettingAppId,
    RequestingCapabilities,
    EnsuringGroups,
    EnsuringDefaultGroup,
    SettingGroups,
    AssigningGroups,
    FetchingProfile,
    ReplacingProfile,
    WritingProfile,
}

/// What is to be done next.
#[derive(Debug)]
pub enum RegistrationAction {
    EnsureAppId,
    GetAppId,
    /// Ask for what the entitlements of the executable need.
    RequestCapabilities,
    EnsureGroup(String),
    /// Write the groups into the information of the app.
    SetGroups(PlistValue),
    /// Assign the groups that were ensured.
    AssignGroups,
    FetchProfile,
    WriteProfile,
}

/// The registration of one bundle.
#[derive(Debug)]
pub struct BundleRegistration {
    pub team_id: String,
    pub is_refresh: bool,
    pub app: SignerApp,
    pub id: String,
    pub name: String,
    pub has_entitlements: bool,
    /// The groups of the entitlements, where these name any.
    pub groups: Option<Vec<String>>,
    /// The names of groups that are still to be ensured.
    pub wanted: Vec<String>,
    /// The groups that were ensured.
    pub group_ids: Vec<String>,
    pub phase: RegistrationPhase,
}

/// The executable of the bundle to register.
pub fn executable_path(bundle: &BundleFacts) -> (r: Result<String, PlumeError>)
    ensures
        match (r, bundle.executable) {
            (Ok(path), Some(name)) => path@ == path_join(bundle.dir@, name@),
            (Err(e), None) => says(e, "Failed to get bundle executable name."@),
            _ => false,
        },
{
    match &bundle.executable {
        Some(name) => Ok(join_path(bundle.dir.as_str(), name.as_str())),
        None => Err(other("Failed to get bundle executable name.")),
    }
}

impl BundleRegistration {
    /// The registration in another phase.
    pub open spec fn at(self, phase: RegistrationPhase) -> BundleRegistration {
        BundleRegistration { phase, ..self }
    }

    /// Begins the registration once the executable was read.
    pub fn new(
        bundle: &BundleFacts,
        team_id: &str,
        is_refresh: bool,
        app: SignerApp,
        has_entitlements: bool,
        groups: Option<Vec<String>>,
    ) -> (r: Result<BundleRegistration, PlumeError>)
        ensures
            match (r, bundle.identifier) {
                (Ok(reg), Some(id)) => reg.id == id && reg.name == (match bundle.name {
                    Some(name) => name,
                    None => id,
                }) && reg.team_id@ == team_id@ && reg.is_refresh == is_refresh && reg.app == app
                    && reg.has_entitlements == has_entitlements && reg.groups == groups
                    && texts(reg.wanted@) == (match groups {
                    Some(g) => group_names(g@, team_id@, is_refresh, g@.len() as int),
                    None => seq![],
                }) && reg.group_ids@.len() == 0 && reg.phase == RegistrationPhase::EnsuringAppId,
                (Err(e), None) => says(e, "Failed to get bundle identifier."@),
                _ => false,
            },
    {
        let id: String = match &bundle.identifier {
            Some(id) => id.clone(),
            None => {
                return Err(other("Failed to get bundle identifier."));
            },
        };
        let name: String = match &bundle.name {
            Some(name) => name.clone(),
            None => id.clone(),
        };
        let wanted: Vec<String> = match &groups {
            Some(g) => app_group_requests(g, team_id, is_refresh),
            None => {
                let none: Vec<String> = Vec::new();
                proof {
                    assert(texts(none@) =~= seq![]);
                }
                none
            },
        };
        Ok(
            BundleRegistration {
                team_id: team_id.to_string(),
                is_refresh,
                app,
                id,
                name,
                has_entitlements,
                groups,
                wanted,
                group_ids: Vec::new(),
                phase: RegistrationPhase::EnsuringAppId,
            },
        )
    }

    /// The first step.
    pub fn start(&self) -> (r: RegistrationAction)
        requires
            self.phase == RegistrationPhase::EnsuringAppId,
        ensures
            r == RegistrationAction::EnsureAppId,
    {
        RegistrationAction::EnsureAppId
    }

    /// The identifier is registered.
    pub fn app_id_ensured(&mut self) -> (r: RegistrationAction)
        requires
            old(self).phase == RegistrationPhase::EnsuringAppId,
        ensures
            r == RegistrationAction::GetAppId,
            *final(self) == old(self).at(RegistrationPhase::GettingAppId),
    {
        self.phase = RegistrationPhase::GettingAppId;
        RegistrationAction::GetAppId
    }

    /// The step after the capabilities: the groups, or without groups the profile.
    pub open spec fn after_capabilities(
        self,
        after: BundleRegistration,
        r: RegistrationAction,
    ) -> bool {
        match self.groups {
            None => r == RegistrationAction::FetchProfile && after == self.at(
                RegistrationPhase::FetchingProfile,
            ),
            Some(_) => self.next_group(after, r),
        }
    }

    /// The next group to ensure, then the one that every app has.
    pub open spec fn next_group(self, after: BundleRegistration, r: RegistrationAction) -> bool {
        if self.wanted@.len() > 0 {
            &&& r == RegistrationAction::EnsureGroup(self.wanted@[0])
            &&& after.wanted@ == self.wanted@.drop_first()
            &&& after.phase == RegistrationPhase::EnsuringGroups
            &&& after == (BundleRegistration {
                wanted: after.wanted,
                phase: after.phase,
                ..self
            })
        } else {
            let group = default_group(self.id@, self.team_id@);
            if texts(self.group_ids@).contains(group) {
                self.after_groups(after, r)
            } else {
                &&& r matches RegistrationAction::EnsureGroup(g) && g@ == group
                &&& after == self.at(RegistrationPhase::EnsuringDefaultGroup)
            }
        }
    }

    /// The step after all groups: a store writes them into its information.
    pub open spec fn after_groups(self, after: BundleRegistration, r: RegistrationAction) -> bool {
        if !self.is_refresh && (self.app == SignerApp::SideStore || self.app
            == SignerApp::AltStore) {
            &&& r matches RegistrationAction::SetGroups(v) && v@ == PlistModel::Array(
                alt_groups(
                    (self.groups->0)@,
                    self.team_id@,
                    (self.groups->0)@.len() as int,
                ),
            )
            &&& after == self.at(RegistrationPhase::SettingGroups)
        } else {
            r == RegistrationAction::AssignGroups && after == self.at(
                RegistrationPhase::AssigningGroups,
            )
        }
    }

    fn finish_groups(&mut self) -> (r: RegistrationAction)
        requires
            old(self).groups is Some,
        ensures
            old(self).after_groups(*final(self), r),
    {
        let value: Option<PlistValue> = match &self.groups {
            Some(g) => alt_app_groups(self.app, self.is_refresh, g, self.team_id.as_str()),
            None => None,
        };
        match value {
            Some(v) => {
                self.phase = RegistrationPhase::SettingGroups;
                RegistrationAction::SetGroups(v)
            },
            None => {
                self.phase = RegistrationPhase::AssigningGroups;
                RegistrationAction::AssignGroups
            },
        }
    }

    fn continue_groups(&mut self) -> (r: RegistrationAction)
        requires
            old(self).groups is Some,
        ensures
            old(self).next_group(*final(self), r),
    {
        if self.wanted.len() > 0 {
            let ghost before = self.wanted@;
            let group: String = self.wanted.remove(0);
            proof {
                assert(self.wanted@ =~= before.drop_first());
            }
            self.phase = RegistrationPhase::EnsuringGroups;
            return RegistrationAction::EnsureGroup(group);
        }
        match missing_default_group(self.id.as_str(), self.team_id.as_str(), &self.group_ids) {
            Some(group) => {
                self.phase = RegistrationPhase::EnsuringDefaultGroup;
                RegistrationAction::EnsureGroup(group)
            },
            None => self.finish_groups(),
        }
    }

    /// The identifier was looked up again; it must be there.
    pub fn app_id_found(&mut self, found: bool) -> (r: Result<RegistrationAction, PlumeError>)
        requires
            old(self).phase == RegistrationPhase::GettingAppId,
        ensures
            match r {
                Err(e) => !found && says(e, "Failed to get ensured app ID."@) && *final(self)
                    == *old(self),
                Ok(action) => found && if old(self).has_entitlements {
                    action == RegistrationAction::RequestCapabilities && *final(self) == old(self).at(RegistrationPhase::RequestingCapabilities)
                } else {
                    old(self).after_capabilities(*final(self), action)
                },
            },
    {
        if !found {
            return Err(other("Failed to get ensured app ID."));
        }
        if self.has_entitlements {
            self.phase = RegistrationPhase::RequestingCapabilities;
            return Ok(RegistrationAction::RequestCapabilities);
        }
        Ok(self.proceed())
    }

    fn proceed(&mut self) -> (r: RegistrationAction)
        ensures
            old(self).after_capabilities(*final(self), r),
    {
        if self.groups.is_none() {
            self.phase = RegistrationPhase::FetchingProfile;
            RegistrationAction::FetchProfile
        } else {
            self.continue_groups()
        }
    }

    /// The capabilities were asked for.
    pub fn capabilities_requested(&mut self) -> (r: RegistrationAction)
        requires
            old(self).phase == RegistrationPhase::RequestingCapabilities,
        ensures
            old(self).after_capabilities(*final(self), r),
    {
        self.proceed()
    }

    /// The registration with one more group ensured.
    pub open spec fn with_group(self, group_id: String, more: BundleRegistration) -> bool {
        &&& more.group_ids@ == self.group_ids@.push(group_id)
        &&& more == (BundleRegistration { group_ids: more.group_ids, ..self })
    }

    /// A group was ensured under the identifier that the service gave it.
    pub fn group_ensured(&mut self, group_id: String) -> (r: RegistrationAction)
        requires
            old(self).phase == RegistrationPhase::EnsuringGroups || old(self).phase
                == RegistrationPhase::EnsuringDefaultGroup,
            old(self).groups is Some,
        ensures
            exists|more: BundleRegistration| #[trigger]
                old(self).with_group(group_id, more) && if old(self).phase
                    == RegistrationPhase::EnsuringGroups {
                    more.next_group(*final(self), r)
                } else {
                    more.after_groups(*final(self), r)
                },
    {
        self.group_ids.push(group_id);
        let ghost more = *self;
        proof {
            assert(old(self).with_group(group_id, more));
        }
        if self.phase == RegistrationPhase::EnsuringGroups {
            self.continue_groups()
        } else {
            self.finish_groups()
        }
    }

    /// The groups were written into the information of the app.
    pub fn groups_set(&mut self) -> (r: RegistrationAction)
        requires
            old(self).phase == RegistrationPhase::SettingGroups,
        ensures
            r == RegistrationAction::AssignGroups,
            *final(self) == old(self).at(RegistrationPhase::AssigningGroups),
    {
        self.phase = RegistrationPhase::AssigningGroups;
        RegistrationAction::AssignGroups
    }

    /// The groups were assigned.
    pub fn groups_assigned(&mut self) -> (r: RegistrationAction)
        requires
            old(self).phase == RegistrationPhase::AssigningGroups,
        ensures
            r == RegistrationAction::FetchProfile,
            *final(self) == old(self).at(RegistrationPhase::FetchingProfile),
    {
        self.phase = RegistrationPhase::FetchingProfile;
        RegistrationAction::FetchProfile
    }

    /// A profile came. One that does not fit is asked for once more; the second must fit.
    pub fn profile_received(
        &mut self,
        profile: &MobileProvision,
        platform: DeveloperPlatform,
        device_udid: Option<&str>,
        certificate_der: Option<&[u8]>,
        requested_entitlements: Option<&PlistDictionary>,
        now: Instant,
    ) -> (r: Result<RegistrationAction, PlumeError>)
        requires
            now.valid(),
            old(self).phase == RegistrationPhase::FetchingProfile || old(self).phase
                == RegistrationPhase::ReplacingProfile,
        ensures
            ({
                let refusal = profile_refusal(
                    profile@,
                    platform,
                    old(self).id@,
                    opt_str(device_udid),
                    opt_bytes(certificate_der),
                    match requested_entitlements {
                        Some(d) => Some(d@),
                        None => None,
                    },
                    now,
                );
                if refusal is None {
                    r == Ok::<RegistrationAction, PlumeError>(RegistrationAction::WriteProfile)
                        && *final(self) == old(self).at(RegistrationPhase::WritingProfile)
                } else if old(self).phase == RegistrationPhase::FetchingProfile {
                    r == Ok::<RegistrationAction, PlumeError>(RegistrationAction::FetchProfile)
                        && *final(self) == old(self).at(RegistrationPhase::ReplacingProfile)
                } else {
                    *final(self) == *old(self) && (r matches Err(PlumeError::Core(e)) && outcome(
                        Err(e),
                        refusal,
                    ))
                }
            }),
            (r matches Ok(RegistrationAction::WriteProfile)) ==> now.at() < profile@.expiration.at()
                && certificate_der is Some,
            (r matches Ok(RegistrationAction::FetchProfile)) ==> old(self).phase
                == RegistrationPhase::FetchingProfile && final(self).phase
                == RegistrationPhase::ReplacingProfile,
            r is Err ==> old(self).phase == RegistrationPhase::ReplacingProfile,
    {
        match profile.validate_for(
            platform,
            self.id.as_str(),
            device_udid,
            certificate_der,
            requested_entitlements,
            now,
        ) {
            Ok(_) => {
                self.phase = RegistrationPhase::WritingProfile;
                Ok(RegistrationAction::WriteProfile)
            },
            Err(e) => if self.phase == RegistrationPhase::FetchingProfile {
                self.phase = RegistrationPhase::ReplacingProfile;
                Ok(RegistrationAction::FetchProfile)
            } else {
                Err(PlumeError::Core(e))
            },
        }
    }
}

/// The index of the first of the outcomes that failed; their number where none did.
pub open spec fn first_failure(
    outcomes: Seq<Result<MobileProvision, PlumeError>>,
    from: int,
) -> int
    decreases outcomes.len() - from,
{
    if from >= outcomes.len() || outcomes[from] is Err {
        from
    } else {
        first_failure(outcomes, from + 1)
    }
}

proof fn lemma_first_failure(
    outcomes: Seq<Result<MobileProvision, PlumeError>>,
    from: int,
    at: int,
)
    requires
        0 <= from <= at <= outcomes.len(),
        forall|j: int| from <= j < at ==> #[trigger] outcomes[j] is Ok,
        at < outcomes.len() ==> outcomes[at] is Err,
    ensures
        first_failure(outcomes, from) == at,
    decreases at - from,
{
    if from < at {
        lemma_first_failure(outcomes, from + 1, at);
    }
}

impl Signer {
    /// Takes over the profiles of the bundles that were registered, in their order. Where a
    /// registration failed, the first failure is returned and the profiles stay as they were.
    pub fn profiles_collected(
        &mut self,
        outcomes: Vec<Result<MobileProvision, PlumeError>>,
    ) -> (r: Result<(), PlumeError>)
        ensures
            *final(self) == (Signer {
                provisioning_files: final(self).provisioning_files,
                ..*old(self)
            }),
            ({
                let failed = first_failure(outcomes@, 0);
                if failed < outcomes@.len() {
                    &&& *final(self) == *old(self)
                    &&& r matches Err(e) && outcomes@[failed] == Err::<MobileProvision, PlumeError>(
                        e,
                    )
                } else {
                    &&& r is Ok
                    &&& final(self).provisioning_files@.len() == outcomes@.len()
                    &&& forall|i: int|
                        0 <= i < outcomes@.len() ==> #[trigger] outcomes@[i] == Ok::<
                            MobileProvision,
                            PlumeError,
                        >(final(self).provisioning_files@[i])
                }
            }),
    {
        let ghost all = outcomes@;
        let mut rest: Vec<Result<MobileProvision, PlumeError>> = outcomes;
        let mut profiles: Vec<MobileProvision> = Vec::new();
        while rest.len() > 0
            invariant
                *self == *old(self),
                all == outcomes@,
                profiles@.len() + rest@.len() == all.len(),
                rest@ == all.subrange(profiles@.len() as int, all.len() as int),
                forall|i: int|
                    0 <= i < profiles@.len() ==> #[trigger] all[i] == Ok::<
                        MobileProvision,
                        PlumeError,
                    >(profiles@[i]),
            decreases rest@.len(),
        {
            let ghost n = profiles@.len() as int;
            proof {
                assert(rest@[0] == all[n]);
                assert(rest@.remove(0) =~= all.subrange(n + 1, all.len() as int));
            }
            match rest.remove(0) {
                Ok(profile) => {
                    profiles.push(profile);
                },
                Err(e) => {
                    proof {
                        lemma_first_failure(all, 0, n);
                    }
                    return Err(e);
                },
            }
        }
        proof {
            lemma_first_failure(all, 0, all.len() as int);
        }
        self.provisioning_files = profiles;
        Ok(())
    }

    /// Ends the registration of the bundles of an app, each with its outcome. Where no team signs
    /// nothing is registered, and the profiles stay as they were.
    pub fn register_bundle_for_device(
        &mut self,
        outcomes: Vec<Result<MobileProvision, PlumeError>>,
    ) -> (r: Result<(), PlumeError>)
        ensures
            *final(self) == (Signer {
                provisioning_files: final(self).provisioning_files,
                ..*old(self)
            }),
            ({
                let failed = first_failure(outcomes@, 0);
                if old(self).options.mode != SignerMode::Pem {
                    r is Ok && *final(self) == *old(self)
                } else if failed < outcomes@.len() {
                    &&& *final(self) == *old(self)
                    &&& r matches Err(e) && outcomes@[failed] == Err::<MobileProvision, PlumeError>(
                        e,
                    )
                } else {
                    &&& r is Ok
                    &&& final(self).provisioning_files@.len() == outcomes@.len()
                    &&& forall|i: int|
                        0 <= i < outcomes@.len() ==> #[trigger] outcomes@[i] == Ok::<
                            MobileProvision,
                            PlumeError,
                        >(final(self).provisioning_files@[i])
                }
            }),
    {
        if self.options.mode != SignerMode::Pem {
            return Ok(());
        }
        self.profiles_collected(outcomes)
    }
}

/// The file in a bundle that holds its profile.
pub fn profile_path(bundle: &BundleFacts) -> (r: String)
    ensures
        r@ == path_join(bundle.dir@, "embedded.mobileprovision"@),
{
    join_path(bundle.dir.as_str(), "embedded.mobileprovision")
}

// ---------------------------------------------------------------------------
// What registering is for
// ---------------------------------------------------------------------------

/// The bundles that are registered are the apps and extensions with entitlements where a team signs,
/// each once and in order; with one profile for all, and but for the television, the app alone.
pub proof fn law_apps_and_extensions_are_registered(
    options: SignerOptions,
    platform: DeveloperPlatform,
    root: Seq<char>,
    bundles: Seq<BundleFacts>,
    n: int,
)
    requires
        0 <= n <= bundles.len() <= usize::MAX,
    ensures
        forall|i: int|
            0 <= i < n ==> (registered(options, platform, root, bundles, n).contains(i as usize) <==> {
                let b = #[trigger] bundles[i];
                &&& options.mode == SignerMode::Pem
                &&& b.entitled
                &&& b.kind == BundleType::App || b.kind == BundleType::AppExtension
                &&& !options.embedding.single_profile || platform == DeveloperPlatform::Tvos
                    || same_path(b.dir@, root)
            }),
        forall|j: int|
            0 <= j < registered(options, platform, root, bundles, n).len() ==> #[trigger] registered(
                options,
                platform,
                root,
                bundles,
                n,
            )[j] < n,
        forall|j: int, k: int|
            0 <= j < k < registered(options, platform, root, bundles, n).len() ==> registered(
                options,
                platform,
                root,
                bundles,
                n,
            )[j] < registered(options, platform, root, bundles, n)[k],
    decreases n,
{
    if n > 0 {
        law_apps_and_extensions_are_registered(options, platform, root, bundles, n - 1);
        let head = registered(options, platform, root, bundles, n - 1);
        let all = registered(options, platform, root, bundles, n);
        assert forall|i: int| 0 <= i < n implies all.contains(i as usize) == (head.contains(
            i as usize,
        ) || (i == n - 1 && is_registered(options, platform, root, #[trigger] bundles[i]))) by {
            if head.contains(i as usize) {
                let j = choose|j: int| 0 <= j < head.len() && head[j] == i as usize;
                assert(all[j] == i as usize);
            }
            if is_registered(options, platform, root, bundles[n - 1]) {
                assert(all[head.len() as int] == (n - 1) as usize);
            }
            if all.contains(i as usize) {
                let j = choose|j: int| 0 <= j < all.len() && all[j] == i as usize;
                if j < head.len() {
                    assert(head[j] == i as usize);
                }
            }
        }
        assert(!head.contains((n - 1) as usize));
    }
}

/// Every app group of the entitlements is asked for, with the team behind it unless the app is only
/// refreshed; other groups are not.
pub proof fn law_app_groups_are_asked_for(
    groups: Seq<String>,
    team: Seq<char>,
    is_refresh: bool,
    n: int,
    name: Seq<char>,
)
    requires
        0 <= n <= groups.len(),
    ensures
        group_names(groups, team, is_refresh, n).contains(name) <==> exists|i: int|
            0 <= i < n && is_prefix("group."@, (#[trigger] groups[i])@) && name == if is_refresh {
                groups[i]@
            } else {
                groups[i]@ + seq!['.'] + team
            },
        group_names(groups, team, is_refresh, n).len() <= n,
    decreases n,
{
    reveal_strlit(".");
    assert("."@ =~= seq!['.']);
    if n > 0 {
        law_app_groups_are_asked_for(groups, team, is_refresh, n - 1, name);
        let head = group_names(groups, team, is_refresh, n - 1);
        let all = group_names(groups, team, is_refresh, n);
        if head.contains(name) {
            let j = choose|j: int| 0 <= j < head.len() && head[j] == name;
            assert(all[j] == name);
        }
        if is_prefix("group."@, groups[n - 1]@) {
            assert(all[head.len() as int] == group_name(groups[n - 1]@, team, is_refresh));
        }
        if all.contains(name) {
            let j = choose|j: int| 0 <= j < all.len() && all[j] == name;
            if j < head.len() {
                assert(head[j] == name);
            }
        }
    }
}

/// Groups are assigned, or written into the app, only once every group was ensured and the group of
/// the app itself is among them.
pub proof fn law_groups_are_complete_before_use(
    registration: BundleRegistration,
    after: BundleRegistration,
    r: RegistrationAction,
)
    requires
        registration.groups is Some,
        registration.after_capabilities(after, r),
        r is AssignGroups || r is SetGroups,
    ensures
        registration.wanted@.len() == 0,
        texts(registration.group_ids@).contains(
            "group."@ + registration.id@ + "."@ + registration.team_id@,
        ),
        r is SetGroups ==> !registration.is_refresh && (registration.app == SignerApp::SideStore
            || registration.app == SignerApp::AltStore),
        r is AssignGroups ==> registration.is_refresh || !(registration.app == SignerApp::SideStore
            || registration.app == SignerApp::AltStore),
{
}

/// While a group is still wanted it is the next thing to be ensured, and it is then wanted no more. An
/// app without groups goes on to its profile at once.
pub proof fn law_wanted_groups_are_ensured(
    registration: BundleRegistration,
    after: BundleRegistration,
    r: RegistrationAction,
)
    requires
        registration.after_capabilities(after, r),
    ensures
        registration.groups is None ==> r is FetchProfile,
        registration.groups is Some && registration.wanted@.len() > 0 ==> r
            == RegistrationAction::EnsureGroup(registration.wanted@[0]) && after.wanted@.len()
            == registration.wanted@.len() - 1,
        registration.groups is Some ==> !(r is FetchProfile),
        after.group_ids == registration.group_ids,
        after.id == registration.id && after.team_id == registration.team_id,
{
}

/// The groups that are written into a store are those of its entitlements, each with the team behind
/// it.
pub proof fn law_store_groups_name_the_team(groups: Seq<String>, team: Seq<char>, n: int)
    requires
        0 <= n <= groups.len(),
    ensures
        alt_groups(groups, team, n).len() == n,
        forall|i: int|
            0 <= i < n ==> #[trigger] alt_groups(groups, team, n)[i] == PlistModel::Text(
                groups[i]@ + seq!['.'] + team,
            ),
    decreases n,
{
    reveal_strlit(".");
    assert("."@ =~= seq!['.']);
    if n > 0 {
        law_store_groups_name_the_team(groups, team, n - 1);
    }
}

/// All registrations succeeded exactly where none is found that failed, and the one that is found is
/// the first.
pub proof fn law_first_failure_is_the_first(outcomes: Seq<Result<MobileProvision, PlumeError>>)
    ensures
        0 <= first_failure(outcomes, 0) <= outcomes.len(),
        first_failure(outcomes, 0) == outcomes.len() <==> forall|i: int|
            0 <= i < outcomes.len() ==> #[trigger] outcomes[i] is Ok,
        first_failure(outcomes, 0) < outcomes.len() ==> outcomes[first_failure(outcomes, 0)] is Err,
        forall|i: int| 0 <= i < first_failure(outcomes, 0) ==> #[trigger] outcomes[i] is Ok,
{
    lemma_failure_from(outcomes, 0);
}

proof fn lemma_failure_from(outcomes: Seq<Result<MobileProvision, PlumeError>>, from: int)
    requires
        0 <= from <= outcomes.len(),
    ensures
        from <= first_failure(outcomes, from) <= outcomes.len(),
        first_failure(outcomes, from) < outcomes.len() ==> outcomes[first_failure(
            outcomes,
            from,
        )] is Err,
        forall|i: int| from <= i < first_failure(outcomes, from) ==> #[trigger] outcomes[i] is Ok,
    decreases outcomes.len() - from,
{
    if from < outcomes.len() && outcomes[from] is Ok {
        lemma_failure_from(outcomes, from + 1);
    }
}

/// A group gets the team behind its name, so that two teams never share one; on a refresh it keeps its
/// name.
pub proof fn law_group_names_end_in_the_team(group: Seq<char>, a: Seq<char>, b: Seq<char>)
    ensures
        group_name(group, a, true) == group,
        group_name(group, a, false).take(group.len() as int) == group,
        group_name(group, a, false).skip(group.len() as int + 1) == a,
        group_name(group, a, false) == group_name(group, b, false) ==> a == b,
        default_group(group, a) == default_group(group, b) ==> a == b,
        default_group(group, a) == group_name("group."@ + group, a, false),
{
    reveal_strlit(".");
    reveal_strlit("group.");
    let x = group_name(group, a, false);
    let y = group_name(group, b, false);
    let k = group.len() as int + 1;
    assert(x.take(group.len() as int) =~= group);
    assert(x.skip(k) =~= a);
    assert(y.skip(k) =~= b);
    let u = default_group(group, a);
    let v = default_group(group, b);
    assert("group."@.len() == 6);
    assert(u.skip(k + 6) =~= a);
    assert(v.skip(k + 6) =~= b);
}

/// A group that was ensured is among the groups of the bundle from then on, behind all others, and
/// nothing else of the registration changes.
pub proof fn law_ensured_group_is_kept(
    registration: BundleRegistration,
    group_id: String,
    more: BundleRegistration,
)
    requires
        registration.with_group(group_id, more),
    ensures
        more.group_ids@.len() == registration.group_ids@.len() + 1,
        more.group_ids@.last() == group_id,
        forall|i: int|
            0 <= i < registration.group_ids@.len() ==> #[trigger] more.group_ids@[i]
                == registration.group_ids@[i],
        texts(more.group_ids@).contains(group_id@),
        more.wanted == registration.wanted && more.id == registration.id && more.team_id
            == registration.team_id && more.groups == registration.groups && more.app
            == registration.app && more.is_refresh == registration.is_refresh,
{
    let k = registration.group_ids@.len() as int;
    assert(texts(more.group_ids@)[k] == group_id@);
}

} // verus!
