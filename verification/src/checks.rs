//! Checking profiles before signing and bundles after it.
use crate::error::{CoreError, PlumeError};
use crate::options::SignerMode;
use crate::paths::{join_path, path_join};
use crate::platform::{opt_str, DeveloperPlatform};
use crate::plist_value::{Instant, PlistDictionary, PlistModel, PlistValue};
use crate::provision::{
    final_refusal, merges_to, opt_bytes, outcome, profile_refusal, MobileProvision, ProfileModel,
    Refusal,
};
use crate::signer::{BundleFacts, BundleType, Signer};
use crate::text::{join2, join3, join4};
use crate::tvos::says;
use vstd::prelude::*;

verus! {

fn other(message: &str) -> (r: PlumeError)
    ensures
        says(r, message@),
{
    PlumeError::Other(message.to_string())
}

/// `e` says that the profile is invalid, for the given reason.
pub open spec fn says_invalid(e: PlumeError, message: Seq<char>) -> bool {
    e matches PlumeError::Core(CoreError::ProvisioningProfileInvalid(m)) && m@ == message
}

fn invalid(message: &str) -> (r: PlumeError)
    ensures
        says_invalid(r, message@),
{
    PlumeError::Core(CoreError::ProvisioningProfileInvalid(message.to_string()))
}

/// The content of optional entitlements.
pub open spec fn opt_entries(o: Option<&PlistDictionary>) -> Option<Seq<(Seq<char>, PlistModel)>> {
    match o {
        Some(d) => Some(d@),
        None => None,
    }
}

// ---------------------------------------------------------------------------
// Before signing
// ---------------------------------------------------------------------------

/// Why one profile is refused for a bundle, if it is.
pub open spec fn refused(
    profile: MobileProvision,
    platform: DeveloperPlatform,
    bundle_id: Seq<char>,
    udid: Option<Seq<char>>,
    der: Option<Seq<u8>>,
    requested: Option<Seq<(Seq<char>, PlistModel)>>,
    now: Instant,
) -> Option<Refusal> {
    profile_refusal(profile@, platform, bundle_id, udid, der, requested, now)
}

impl Signer {
    /// The identifier and the executable of a bundle to sign.
    pub fn signable(bundle: &BundleFacts) -> (r: Result<(String, String), PlumeError>)
        ensures
            match (bundle.identifier, bundle.executable) {
                (Some(id), Some(exe)) => r matches Ok(p) && p.0 == id && p.1@ == path_join(
                    bundle.dir@,
                    exe@,
                ),
                (None, _) => r matches Err(e) && says(
                    e,
                    "Signable bundle has no bundle identifier"@,
                ),
                (Some(_), None) => r matches Err(e) && says(e, "Signable bundle has no executable"@),
            },
    {
        let id: String = match &bundle.identifier {
            Some(id) => id.clone(),
            None => {
                return Err(other("Signable bundle has no bundle identifier"));
            },
        };
        match &bundle.executable {
            Some(exe) => Ok((id, join_path(bundle.dir.as_str(), exe.as_str()))),
            None => Err(other("Signable bundle has no executable")),
        }
    }

    /// The profile at index `i` is refused for a bundle.
    pub open spec fn refuses(
        self,
        i: int,
        platform: DeveloperPlatform,
        bundle_id: Seq<char>,
        udid: Option<Seq<char>>,
        requested: Option<Seq<(Seq<char>, PlistModel)>>,
        now: Instant,
    ) -> Option<Refusal> {
        refused(
            self.provisioning_files@[i],
            platform,
            bundle_id,
            udid,
            self.der(),
            requested,
            now,
        )
    }

    /// The first profile that fits a bundle. Where none does, the error is that of the last one.
    pub fn select_profile(
        &self,
        platform: DeveloperPlatform,
        bundle_id: &str,
        device_udid: Option<&str>,
        requested_entitlements: Option<&PlistDictionary>,
        now: Instant,
    ) -> (r: Result<usize, PlumeError>)
        requires
            now.valid(),
        ensures
            ({
                let n = self.provisioning_files@.len();
                let udid = opt_str(device_udid);
                let requested = opt_entries(requested_entitlements);
                match r {
                    Ok(i) => i < n && self.refuses(
                        i as int,
                        platform,
                        bundle_id@,
                        udid,
                        requested,
                        now,
                    ) is None && forall|j: int|
                        0 <= j < i ==> (#[trigger] self.refuses(
                            j,
                            platform,
                            bundle_id@,
                            udid,
                            requested,
                            now,
                        )) is Some,
                    Err(e) => (forall|j: int|
                        0 <= j < n ==> (#[trigger] self.refuses(
                            j,
                            platform,
                            bundle_id@,
                            udid,
                            requested,
                            now,
                        )) is Some) && if n == 0 {
                        says_invalid(e, "no profile grants "@ + bundle_id@)
                    } else {
                        e matches PlumeError::Core(c) && outcome(
                            Err(c),
                            self.refuses(n - 1, platform, bundle_id@, udid, requested, now),
                        )
                    },
                }
            }),
            r matches Ok(i) ==> i < self.provisioning_files@.len() && now.at()
                < self.provisioning_files@[i as int]@.expiration.at() && (
            device_udid matches Some(u) ==> crate::provision::lists_device(
                self.provisioning_files@[i as int]@.devices,
                u@,
            )),
            self.provisioning_files@.len() == 0 ==> r is Err,
    {
        let ghost udid = opt_str(device_udid);
        let ghost requested = opt_entries(requested_entitlements);
        let mut last: Option<CoreError> = None;
        let mut i: usize = 0;
        while i < self.provisioning_files.len()
            invariant
                now.valid(),
                udid == opt_str(device_udid),
                requested == opt_entries(requested_entitlements),
                i <= self.provisioning_files@.len(),
                forall|j: int|
                    0 <= j < i ==> (#[trigger] self.refuses(
                        j,
                        platform,
                        bundle_id@,
                        udid,
                        requested,
                        now,
                    )) is Some,
                i == 0 ==> last is None,
                i > 0 ==> (last matches Some(c) && outcome(
                    Err(c),
                    self.refuses(i - 1, platform, bundle_id@, udid, requested, now),
                )),
            decreases self.provisioning_files@.len() - i,
        {
            match self.provisioning_files[i].validate_for(
                platform,
                bundle_id,
                device_udid,
                self.certificate_bytes(),
                requested_entitlements,
                now,
            ) {
                Ok(_) => {
                    return Ok(i);
                },
                Err(e) => {
                    last = Some(e);
                },
            }
            i += 1;
        }
        match last {
            Some(e) => Err(PlumeError::Core(e)),
            None => Err(invalid(join2("no profile grants ", bundle_id).as_str())),
        }
    }

    fn certificate_bytes(&self) -> (r: Option<&[u8]>)
        ensures
            opt_bytes(r) == self.der(),
    {
        match &self.certificate {
            Some(c) => match &c.der {
                Some(der) => Some(der.as_slice()),
                None => None,
            },
            None => None,
        }
    }

    /// The entitlements that a bundle is signed with: the chosen ones, which count only with a single
    /// profile, else those of its profile.
    pub fn final_entitlements(
        &self,
        custom: Option<PlistDictionary>,
        effective: &MobileProvision,
    ) -> (r: PlistDictionary)
        ensures
            r@ == match custom {
                Some(d) if self.options.embedding.single_profile => d@,
                _ => effective@.entitlements,
            },
    {
        match custom {
            Some(d) => if self.options.embedding.single_profile {
                d
            } else {
                effective.entitlements.duplicate()
            },
            None => effective.entitlements.duplicate(),
        }
    }

    /// Checks the profile of one bundle once it was merged with what its executable asks for.
    pub fn validate_effective_profile(
        &self,
        effective: &MobileProvision,
        custom: Option<PlistDictionary>,
        platform: DeveloperPlatform,
        bundle_id: &str,
        device_udid: Option<&str>,
        now: Instant,
    ) -> (r: Result<(), PlumeError>)
        requires
            now.valid(),
        ensures
            ({
                let refusal = final_refusal(
                    effective@,
                    platform,
                    bundle_id@,
                    opt_str(device_udid),
                    self.der(),
                    match custom {
                        Some(d) if self.options.embedding.single_profile => d@,
                        _ => effective@.entitlements,
                    },
                    now,
                );
                match r {
                    Ok(_) => refusal is None,
                    Err(PlumeError::Core(e)) => refusal is Some && outcome(Err(e), refusal),
                    Err(_) => false,
                }
            }),
    {
        let entitlements: PlistDictionary = self.final_entitlements(custom, effective);
        match effective.validate_final_entitlements(
            platform,
            bundle_id,
            device_udid,
            self.certificate_bytes(),
            &entitlements,
            now,
        ) {
            Ok(_) => Ok(()),
            Err(e) => Err(PlumeError::Core(e)),
        }
    }
}

/// The chosen entitlements must be a dictionary.
pub fn custom_entitlements(value: PlistValue) -> (r: Result<PlistDictionary, PlumeError>)
    ensures
        match r {
            Ok(d) => value@ == PlistModel::Dict(d@),
            Err(e) => !(value@ is Dict) && says(
                e,
                "Custom entitlements file is not a dictionary"@,
            ),
        },
{
    match value {
        PlistValue::Dict(d) => {
            proof {
                crate::plist_model::lemma_dictionary_model(d);
            }
            Ok(d)
        },
        _ => Err(other("Custom entitlements file is not a dictionary")),
    }
}

/// The content of chosen entitlements.
pub open spec fn chosen_entries(o: Option<PlistDictionary>) -> Option<
    Seq<(Seq<char>, PlistModel)>,
> {
    match o {
        Some(d) => Some(d@),
        None => None,
    }
}

/// A bundle to sign, with what came of reading its executable: the entitlements that it asks for.
pub struct SignableBundle {
    pub facts: BundleFacts,
    pub entitlements: Result<Option<PlistDictionary>, PlumeError>,
}

/// What a check is made for: the platform, the device and the time.
#[derive(Clone, Copy)]
pub struct SigningTarget<'a> {
    pub platform: DeveloperPlatform,
    pub device_udid: Option<&'a str>,
    pub now: Instant,
}

/// The content of the entitlements that an executable asks for.
pub open spec fn requested_by(bundle: SignableBundle) -> Option<Seq<(Seq<char>, PlistModel)>> {
    match bundle.entitlements {
        Ok(Some(d)) => Some(d@),
        _ => None,
    }
}

/// Those of the first `n` bundles that carry entitlements.
pub open spec fn entitled_bundles(bundles: Seq<SignableBundle>, n: int) -> Seq<SignableBundle>
    decreases n,
{
    if n <= 0 {
        seq![]
    } else {
        let head = entitled_bundles(bundles, n - 1);
        if bundles[n - 1].facts.entitled {
            head.push(bundles[n - 1])
        } else {
            head
        }
    }
}

fn keep_entitled(bundles: Vec<SignableBundle>) -> (r: Vec<SignableBundle>)
    ensures
        r@ == entitled_bundles(bundles@, bundles@.len() as int),
{
    let ghost all = bundles@;
    let mut rest: Vec<SignableBundle> = bundles;
    let mut kept: Vec<SignableBundle> = Vec::new();
    let ghost mut n: int = 0;
    proof {
        assert(all.skip(0) =~= all);
    }
    while rest.len() > 0
        invariant
            all == bundles@,
            0 <= n <= all.len(),
            rest@ == all.skip(n),
            kept@ == entitled_bundles(all, n),
        decreases rest@.len(),
    {
        let b: SignableBundle = rest.remove(0);
        proof {
            assert(b == all[n]);
            assert(rest@ =~= all.skip(n + 1));
            n = n + 1;
        }
        if b.facts.entitled {
            kept.push(b);
        }
    }
    kept
}

impl Signer {
    /// The profile at index `p` is the first that fits the bundle.
    pub open spec fn first_fit(self, bundle: SignableBundle, target: SigningTarget, p: usize) -> bool {
        let id = (bundle.facts.identifier->0)@;
        let udid = opt_str(target.device_udid);
        let requested = requested_by(bundle);
        &&& p < self.provisioning_files@.len()
        &&& self.refuses(p as int, target.platform, id, udid, requested, target.now) is None
        &&& forall|j: int|
            0 <= j < p ==> (#[trigger] self.refuses(
                j,
                target.platform,
                id,
                udid,
                requested,
                target.now,
            )) is Some
    }

    /// The profile at index `p`, merged with what an executable asks for, for the app with the
    /// identifier `id`: `effective` has the merged entitlements and is otherwise that profile.
    pub open spec fn merged<
        F: Fn(PlistDictionary, PlistDictionary, Option<String>, String) -> PlistDictionary,
    >(
        self,
        p: usize,
        requested: Option<Seq<(Seq<char>, PlistModel)>>,
        id: Seq<char>,
        merge: F,
        effective: ProfileModel,
    ) -> bool {
        let profile = self.provisioning_files@[p as int]@;
        &&& effective == (ProfileModel { entitlements: effective.entitlements, ..profile })
        &&& requested matches Some(binary) && merges_to(
            merge,
            profile.entitlements,
            binary,
            id,
            effective.entitlements,
        )
    }

    /// Why the merged profile is refused for the entitlements that the bundle is signed with.
    pub open spec fn effective_refusal(
        self,
        bundle: SignableBundle,
        target: SigningTarget,
        effective: ProfileModel,
        custom: Option<Seq<(Seq<char>, PlistModel)>>,
    ) -> Option<Refusal> {
        final_refusal(
            effective,
            target.platform,
            (bundle.facts.identifier->0)@,
            opt_str(target.device_udid),
            self.der(),
            match custom {
                Some(d) if self.options.embedding.single_profile => d,
                _ => effective.entitlements,
            },
            target.now,
        )
    }

    /// The chosen entitlements are read for this run.
    pub open spec fn reads_custom(self) -> bool {
        self.options.embedding.single_profile && self.options.custom_entitlements is Some
    }

    /// `custom` are the chosen entitlements as they were read; none exactly where none are read.
    pub open spec fn custom_read<C: Fn() -> Result<PlistValue, PlumeError>>(
        self,
        read_custom: C,
        custom: Option<Seq<(Seq<char>, PlistModel)>>,
    ) -> bool {
        match custom {
            None => !self.reads_custom(),
            Some(d) => self.reads_custom() && exists|value: PlistValue| #[trigger]
                call_ensures(read_custom, (), Ok(value)) && value@ == PlistModel::Dict(d),
        }
    }

    /// One bundle may be signed: a profile fits, and merged with what the executable asks for it
    /// grants what the bundle is signed with.
    pub open spec fn passes<
        F: Fn(PlistDictionary, PlistDictionary, Option<String>, String) -> PlistDictionary,
        C: Fn() -> Result<PlistValue, PlumeError>,
    >(
        self,
        bundle: SignableBundle,
        target: SigningTarget,
        merge: F,
        read_custom: C,
    ) -> bool {
        &&& bundle.facts.identifier is Some
        &&& bundle.facts.executable is Some
        &&& bundle.entitlements is Ok
        &&& exists|
            p: usize,
            effective: ProfileModel,
            custom: Option<Seq<(Seq<char>, PlistModel)>>,
        |
            {
                &&& #[trigger] self.first_fit(bundle, target, p)
                &&& self.merged(
                    p,
                    requested_by(bundle),
                    (bundle.facts.identifier->0)@,
                    merge,
                    effective,
                )
                &&& self.custom_read(read_custom, custom)
                &&& #[trigger] self.effective_refusal(bundle, target, effective, custom) is None
            }
    }

    /// One bundle may not be signed, for the reason that `e` gives.
    pub open spec fn fails<
        F: Fn(PlistDictionary, PlistDictionary, Option<String>, String) -> PlistDictionary,
        C: Fn() -> Result<PlistValue, PlumeError>,
    >(
        self,
        bundle: SignableBundle,
        target: SigningTarget,
        merge: F,
        read_custom: C,
        e: PlumeError,
    ) -> bool {
        let n = self.provisioning_files@.len();
        if bundle.facts.identifier is None {
            says(e, "Signable bundle has no bundle identifier"@)
        } else if bundle.facts.executable is None {
            says(e, "Signable bundle has no executable"@)
        } else if bundle.entitlements is Err {
            bundle.entitlements == Err::<Option<PlistDictionary>, PlumeError>(e)
        } else {
            ||| (forall|p: usize| p < n ==> !#[trigger] self.first_fit(bundle, target, p)) && (
            e matches PlumeError::Core(c) && outcome(
                Err(c),
                self.refuses(
                    n - 1,
                    target.platform,
                    (bundle.facts.identifier->0)@,
                    opt_str(target.device_udid),
                    requested_by(bundle),
                    target.now,
                ),
            ))
            ||| exists|p: usize| #[trigger]
                self.first_fit(bundle, target, p) && self.fails_with_profile(
                    bundle,
                    p,
                    target,
                    merge,
                    read_custom,
                    e,
                )
        }
    }

    /// One bundle, whose profile is that at index `p`, may not be signed, for the reason that `e`
    /// gives: its executable has no entitlements, the chosen ones could not be read, or the merged
    /// profile does not grant what the bundle is signed with.
    pub open spec fn fails_with_profile<
        F: Fn(PlistDictionary, PlistDictionary, Option<String>, String) -> PlistDictionary,
        C: Fn() -> Result<PlistValue, PlumeError>,
    >(
        self,
        bundle: SignableBundle,
        p: usize,
        target: SigningTarget,
        merge: F,
        read_custom: C,
        e: PlumeError,
    ) -> bool {
        if requested_by(bundle) is None {
            e == PlumeError::Core(CoreError::ProvisioningEntitlementsUnknown)
        } else {
            ||| self.reads_custom() && call_ensures(read_custom, (), Err(e))
            ||| self.reads_custom() && exists|value: PlistValue| #[trigger]
                call_ensures(read_custom, (), Ok(value)) && !(value@ is Dict) && says(
                    e,
                    "Custom entitlements file is not a dictionary"@,
                )
            ||| exists|effective: ProfileModel, custom: Option<Seq<(Seq<char>, PlistModel)>>|
                {
                    &&& self.merged(
                        p,
                        requested_by(bundle),
                        (bundle.facts.identifier->0)@,
                        merge,
                        effective,
                    )
                    &&& self.custom_read(read_custom, custom)
                    &&& (#[trigger] self.effective_refusal(
                        bundle,
                        target,
                        effective,
                        custom,
                    )) is Some
                    &&& e matches PlumeError::Core(c) && outcome(
                        Err(c),
                        self.effective_refusal(bundle, target, effective, custom),
                    )
                }
        }
    }

    /// The profile at index `p`, merged with what an executable asks for, for the app with the given
    /// identifier. An executable without entitlements is refused.
    pub fn effective_profile<
        F: Fn(PlistDictionary, PlistDictionary, Option<String>, String) -> PlistDictionary,
    >(
        &self,
        p: usize,
        requested: Option<&PlistDictionary>,
        bundle_id: &str,
        merge: &F,
    ) -> (r: Result<MobileProvision, CoreError>)
        requires
            p < self.provisioning_files@.len(),
            forall|own: PlistDictionary, binary: PlistDictionary, team: Option<String>, id: String|
                call_requires(*merge, (own, binary, team, id)),
        ensures
            match r {
                Ok(effective) => self.merged(
                    p,
                    opt_entries(requested),
                    bundle_id@,
                    *merge,
                    effective@,
                ) && effective.data@ == self.provisioning_files@[p as int].data@,
                Err(e) => requested is None && e == CoreError::ProvisioningEntitlementsUnknown,
            },
    {
        let mut effective: MobileProvision = self.provisioning_files[p].clone();
        let binary: Option<PlistDictionary> = match requested {
            Some(d) => Some(d.duplicate()),
            None => None,
        };
        match effective.merge_entitlements(binary, bundle_id, merge) {
            Ok(_) => Ok(effective),
            Err(_) => Err(CoreError::ProvisioningEntitlementsUnknown),
        }
    }

    fn read_chosen<C: Fn() -> Result<PlistValue, PlumeError>>(&self, read_custom: &C) -> (r: Result<
        Option<PlistDictionary>,
        PlumeError,
    >)
        requires
            call_requires(*read_custom, ()),
        ensures
            match r {
                Ok(None) => !self.reads_custom(),
                Ok(Some(d)) => self.reads_custom() && exists|value: PlistValue| #[trigger]
                    call_ensures(*read_custom, (), Ok(value)) && value@ == PlistModel::Dict(d@),
                Err(e) => self.reads_custom() && (call_ensures(*read_custom, (), Err(e)) || exists|
                    value: PlistValue,
                | #[trigger]
                    call_ensures(*read_custom, (), Ok(value)) && !(value@ is Dict) && says(
                        e,
                        "Custom entitlements file is not a dictionary"@,
                    )),
            },
    {
        if !(self.options.embedding.single_profile && self.options.custom_entitlements.is_some()) {
            return Ok(None);
        }
        match read_custom() {
            Err(e) => Err(e),
            Ok(value) => match custom_entitlements(value) {
                Ok(d) => Ok(Some(d)),
                Err(e) => Err(e),
            },
        }
    }

    fn validate_one<
        F: Fn(PlistDictionary, PlistDictionary, Option<String>, String) -> PlistDictionary,
        C: Fn() -> Result<PlistValue, PlumeError>,
    >(
        &self,
        bundle: SignableBundle,
        target: SigningTarget,
        merge: &F,
        read_custom: &C,
    ) -> (r: Result<(), PlumeError>)
        requires
            target.now.valid(),
            self.provisioning_files@.len() > 0,
            call_requires(*read_custom, ()),
            forall|own: PlistDictionary, binary: PlistDictionary, team: Option<String>, id: String|
                call_requires(*merge, (own, binary, team, id)),
        ensures
            match r {
                Ok(_) => self.passes(bundle, target, *merge, *read_custom),
                Err(e) => self.fails(bundle, target, *merge, *read_custom, e),
            },
    {
        let (id, _): (String, String) = match Signer::signable(&bundle.facts) {
            Ok(pair) => pair,
            Err(e) => {
                return Err(e);
            },
        };
        let asked: Option<PlistDictionary> = match bundle.entitlements {
            Ok(asked) => asked,
            Err(e) => {
                return Err(e);
            },
        };
        let requested: Option<&PlistDictionary> = match &asked {
            Some(d) => Some(d),
            None => None,
        };
        let p: usize = match self.select_profile(
            target.platform,
            id.as_str(),
            target.device_udid,
            requested,
            target.now,
        ) {
            Ok(p) => p,
            Err(e) => {
                return Err(e);
            },
        };
        proof {
            assert(self.first_fit(bundle, target, p));
        }
        let effective: MobileProvision = match self.effective_profile(
            p,
            requested,
            id.as_str(),
            merge,
        ) {
            Ok(m) => m,
            Err(c) => {
                let e: PlumeError = PlumeError::Core(c);
                proof {
                    assert(self.fails_with_profile(bundle, p, target, *merge, *read_custom, e));
                }
                return Err(e);
            },
        };
        let chosen: Option<PlistDictionary> = match self.read_chosen(read_custom) {
            Ok(c) => c,
            Err(e) => {
                proof {
                    assert(self.fails_with_profile(bundle, p, target, *merge, *read_custom, e));
                }
                return Err(e);
            },
        };
        let ghost custom = chosen_entries(chosen);
        proof {
            assert(self.merged(
                p,
                requested_by(bundle),
                (bundle.facts.identifier->0)@,
                *merge,
                effective@,
            ));
            assert(self.custom_read(*read_custom, custom));
        }
        match self.validate_effective_profile(
            &effective,
            chosen,
            target.platform,
            id.as_str(),
            target.device_udid,
            target.now,
        ) {
            Ok(_) => {
                proof {
                    assert(self.effective_refusal(bundle, target, effective@, custom) is None);
                }
                Ok(())
            },
            Err(e) => {
                proof {
                    assert(self.effective_refusal(bundle, target, effective@, custom) is Some);
                    assert(self.fails_with_profile(bundle, p, target, *merge, *read_custom, e));
                }
                Err(e)
            },
        }
    }

    /// Checks, before signing, that each bundle with entitlements has a profile that lets it run.
    /// `merge` makes the entitlements of a merged profile; `read_custom` gives the chosen
    /// entitlements.
    pub fn validate_provisioning_files<
        F: Fn(PlistDictionary, PlistDictionary, Option<String>, String) -> PlistDictionary,
        C: Fn() -> Result<PlistValue, PlumeError>,
    >(
        &self,
        bundles: Vec<SignableBundle>,
        target: SigningTarget,
        merge: F,
        read_custom: C,
    ) -> (r: Result<(), PlumeError>)
        requires
            target.now.valid(),
            call_requires(read_custom, ()),
            forall|own: PlistDictionary, binary: PlistDictionary, team: Option<String>, id: String|
                call_requires(merge, (own, binary, team, id)),
        ensures
            ({
                let entitled = entitled_bundles(bundles@, bundles@.len() as int);
                if self.options.mode != SignerMode::Pem {
                    r is Ok
                } else if entitled.len() == 0 {
                    r matches Err(e) && says_invalid(
                        e,
                        "no signable app or extension bundles were found"@,
                    )
                } else if self.provisioning_files@.len() == 0 {
                    r matches Err(e) && says_invalid(e, "no provisioning profiles are available"@)
                } else {
                    match r {
                        Ok(_) => forall|k: int|
                            0 <= k < entitled.len() ==> self.passes(
                                #[trigger] entitled[k],
                                target,
                                merge,
                                read_custom,
                            ),
                        Err(e) => exists|k: int|
                            0 <= k < entitled.len() && self.fails(
                                #[trigger] entitled[k],
                                target,
                                merge,
                                read_custom,
                                e,
                            ) && forall|j: int|
                                0 <= j < k ==> self.passes(
                                    #[trigger] entitled[j],
                                    target,
                                    merge,
                                    read_custom,
                                ),
                    }
                }
            }),
    {
        if self.options.mode != SignerMode::Pem {
            return Ok(());
        }
        let mut rest: Vec<SignableBundle> = keep_entitled(bundles);
        if rest.len() == 0 {
            return Err(invalid("no signable app or extension bundles were found"));
        }
        if self.provisioning_files.len() == 0 {
            return Err(invalid("no provisioning profiles are available"));
        }
        let ghost entitled = rest@;
        let ghost mut n: int = 0;
        proof {
            assert(entitled.skip(0) =~= entitled);
        }
        while rest.len() > 0
            invariant
                target.now.valid(),
                call_requires(read_custom, ()),
                forall|
                    own: PlistDictionary,
                    binary: PlistDictionary,
                    team: Option<String>,
                    id: String,
                |
                    call_requires(merge, (own, binary, team, id)),
                self.provisioning_files@.len() > 0,
                0 <= n <= entitled.len(),
                rest@ == entitled.skip(n),
                entitled == entitled_bundles(bundles@, bundles@.len() as int),
                entitled.len() > 0,
                self.options.mode == SignerMode::Pem,
                forall|j: int|
                    0 <= j < n ==> self.passes(#[trigger] entitled[j], target, merge, read_custom),
            decreases rest@.len(),
        {
            let b: SignableBundle = rest.remove(0);
            proof {
                assert(b == entitled[n]);
                assert(rest@ =~= entitled.skip(n + 1));
            }
            if let Err(e) = self.validate_one(b, target, &merge, &read_custom) {
                proof {
                    assert(self.fails(entitled[n], target, merge, read_custom, e));
                }
                return Err(e);
            }
            proof {
                n = n + 1;
            }
        }
        Ok(())
    }
}

/// A check before signing that succeeds leaves no bundle with entitlements whose executable has none
/// of its own, or for which no profile fits.
pub proof fn law_passing_bundle_has_a_profile<
    F: Fn(PlistDictionary, PlistDictionary, Option<String>, String) -> PlistDictionary,
    C: Fn() -> Result<PlistValue, PlumeError>,
>(signer: Signer, bundle: SignableBundle, target: SigningTarget, merge: F, read_custom: C)
    requires
        signer.passes(bundle, target, merge, read_custom),
    ensures
        bundle.facts.identifier is Some,
        requested_by(bundle) is Some,
        exists|p: usize| #[trigger] signer.first_fit(bundle, target, p),
{
}

// ---------------------------------------------------------------------------
// Signing
// ---------------------------------------------------------------------------

/// Where the entitlements of a signature come from.
#[derive(Debug)]
pub enum EntitlementsSource {
    /// The signature has none set.
    Unset,
    /// The file that was chosen.
    File(String),
    /// The profile of the bundle.
    Profile,
    /// An empty dictionary, as a property list.
    Empty(&'static str),
}

/// The entitlements of a signature that has none: an empty dictionary.
pub const EMPTY_ENTITLEMENTS: &'static str =
    "<?xml version=\"1.0\" encoding=\"UTF-8\"?>\n<!DOCTYPE plist PUBLIC \"-//Apple//DTD PLIST 1.0//EN\" \"http://www.apple.com/DTDs/PropertyList-1.0.dtd\">\n<plist version=\"1.0\">\n<dict/>\n</plist>\n";

impl Signer {
    /// The profile to put into a bundle: the first that fits, else the first of all. Only bundles
    /// that carry entitlements get one, and not where no team signs.
    pub fn embedded_profile(
        &self,
        bundle: &BundleFacts,
        platform: DeveloperPlatform,
        device_udid: Option<&str>,
        requested_entitlements: Option<&PlistDictionary>,
        now: Instant,
    ) -> (r: Option<usize>)
        requires
            now.valid(),
        ensures
            ({
                let n = self.provisioning_files@.len();
                let udid = opt_str(device_udid);
                let requested = opt_entries(requested_entitlements);
                if self.options.mode == SignerMode::Adhoc || !bundle.entitled || n == 0 {
                    r is None
                } else {
                    r matches Some(i) && i < n && match bundle.identifier {
                        None => i == 0,
                        Some(id) => if self.refuses(
                            i as int,
                            platform,
                            id@,
                            udid,
                            requested,
                            now,
                        ) is None {
                            forall|j: int|
                                0 <= j < i ==> (#[trigger] self.refuses(
                                    j,
                                    platform,
                                    id@,
                                    udid,
                                    requested,
                                    now,
                                )) is Some
                        } else {
                            i == 0 && forall|j: int|
                                0 <= j < n ==> (#[trigger] self.refuses(
                                    j,
                                    platform,
                                    id@,
                                    udid,
                                    requested,
                                    now,
                                )) is Some
                        },
                    }
                }
            }),
            self.options.mode == SignerMode::Adhoc ==> r is None,
            r matches Some(i) ==> bundle.entitled && i < self.provisioning_files@.len(),
            r matches Some(i) ==> i > 0 ==> now.at()
                < self.provisioning_files@[i as int]@.expiration.at(),
    {
        if self.options.mode == SignerMode::Adhoc || !bundle.entitled
            || self.provisioning_files.len() == 0 {
            return None;
        }
        if let Some(id) = &bundle.identifier {
            if let Ok(i) = self.select_profile(
                platform,
                id.as_str(),
                device_udid,
                requested_entitlements,
                now,
            ) {
                return Some(i);
            }
        }
        Some(0)
    }

    /// Where the entitlements of a bundle's signature come from.
    pub fn entitlements_source(&self, has_profile: bool) -> (r: EntitlementsSource)
        ensures
            if self.options.mode == SignerMode::Adhoc {
                r == EntitlementsSource::Unset
            } else if self.options.embedding.single_profile && self.options.custom_entitlements is Some {
                r == EntitlementsSource::File(self.options.custom_entitlements->0)
            } else if has_profile {
                r == EntitlementsSource::Profile
            } else {
                r matches EntitlementsSource::Empty(xml) && xml@ == EMPTY_ENTITLEMENTS@
            },
            r == EntitlementsSource::Unset <==> self.options.mode == SignerMode::Adhoc,
            r == EntitlementsSource::Profile ==> has_profile,
            r is File ==> self.options.embedding.single_profile,
            r is Empty ==> !has_profile,
    {
        if self.options.mode == SignerMode::Adhoc {
            return EntitlementsSource::Unset;
        }
        if self.options.embedding.single_profile {
            if let Some(path) = &self.options.custom_entitlements {
                return EntitlementsSource::File(path.clone());
            }
        }
        if has_profile {
            EntitlementsSource::Profile
        } else {
            EntitlementsSource::Empty(EMPTY_ENTITLEMENTS)
        }
    }

    /// Whether a bundle is signed at all.
    pub fn signs(&self, bundle: &BundleFacts) -> (r: bool)
        ensures
            r == (self.options.mode != SignerMode::NoModify && bundle.kind != BundleType::Unknown),
    {
        self.options.mode != SignerMode::NoModify && bundle.kind != BundleType::Unknown
    }
}

// ---------------------------------------------------------------------------
// After signing
// ---------------------------------------------------------------------------

/// What is to be done with a bundle that was signed.
#[derive(Debug)]
pub enum SignedCheck {
    /// Nothing is checked.
    Skip,
    /// The executable whose signature is checked.
    Executable(String),
}

/// What is to be done once the signature was checked.
#[derive(Debug)]
pub enum EntitlementCheck {
    /// Nothing more is checked.
    Done,
    /// The profile at this path is checked for the bundle with this identifier.
    Profile { bundle_id: String, path: String },
}

impl Signer {
    /// The executable of a signed bundle; a library is its own.
    pub fn signed_executable(&self, bundle: &BundleFacts) -> (r: Result<SignedCheck, PlumeError>)
        ensures
            if self.options.mode == SignerMode::NoModify || bundle.kind == BundleType::Unknown {
                r == Ok::<SignedCheck, PlumeError>(SignedCheck::Skip)
            } else if bundle.kind == BundleType::Dylib {
                r == Ok::<SignedCheck, PlumeError>(SignedCheck::Executable(bundle.dir))
            } else {
                match bundle.executable {
                    Some(name) => r matches Ok(SignedCheck::Executable(path)) && path@ == path_join(
                        bundle.dir@,
                        name@,
                    ),
                    None => r matches Err(e) && says(e, "Signed bundle has no executable"@),
                }
            },
    {
        if self.options.mode == SignerMode::NoModify || bundle.kind == BundleType::Unknown {
            return Ok(SignedCheck::Skip);
        }
        if bundle.kind == BundleType::Dylib {
            return Ok(SignedCheck::Executable(bundle.dir.clone()));
        }
        match &bundle.executable {
            Some(name) => Ok(
                SignedCheck::Executable(join_path(bundle.dir.as_str(), name.as_str())),
            ),
            None => Err(other("Signed bundle has no executable")),
        }
    }

    /// Checks the signature that was found: there must be one, and where a team signs it must verify.
    /// Bundles with entitlements must have an identifier, and their profile is checked next.
    pub fn check_signature(
        &self,
        bundle: &BundleFacts,
        has_code_signature: bool,
        problems: &Vec<String>,
    ) -> (r: Result<EntitlementCheck, PlumeError>)
        ensures
            if !has_code_signature {
                r matches Err(e) && says(
                    e,
                    "Signed bundle "@ + bundle.dir@ + " has no code signature"@,
                )
            } else if self.options.mode != SignerMode::Adhoc && problems@.len() > 0 {
                r matches Err(e) && says(
                    e,
                    "Signature verification failed for "@ + bundle.dir@ + ": "@ + problems@[0]@,
                )
            } else if !bundle.entitled {
                r == Ok::<EntitlementCheck, PlumeError>(EntitlementCheck::Done)
            } else {
                match bundle.identifier {
                    None => r matches Err(e) && says(
                        e,
                        "Signed bundle has no bundle identifier"@,
                    ),
                    Some(id) => r matches Ok(EntitlementCheck::Profile { bundle_id, path })
                        && bundle_id == id && path@ == path_join(
                        bundle.dir@,
                        "embedded.mobileprovision"@,
                    ),
                }
            },
    {
        if !has_code_signature {
            return Err(
                other(
                    join3(
                        "Signed bundle ",
                        bundle.dir.as_str(),
                        " has no code signature",
                    ).as_str(),
                ),
            );
        }
        if self.options.mode != SignerMode::Adhoc && problems.len() > 0 {
            return Err(
                other(
                    join4(
                        "Signature verification failed for ",
                        bundle.dir.as_str(),
                        ": ",
                        problems[0].as_str(),
                    ).as_str(),
                ),
            );
        }
        if !bundle.entitled {
            return Ok(EntitlementCheck::Done);
        }
        match &bundle.identifier {
            None => Err(other("Signed bundle has no bundle identifier")),
            Some(id) => Ok(
                EntitlementCheck::Profile {
                    bundle_id: id.clone(),
                    path: join_path(bundle.dir.as_str(), "embedded.mobileprovision"),
                },
            ),
        }
    }

    /// Checks the entitlements that a bundle was signed with against its profile.
    pub fn check_signed_entitlements(
        &self,
        profile: &MobileProvision,
        bundle_id: &str,
        entitlements: Option<&PlistDictionary>,
        platform: DeveloperPlatform,
        device_udid: Option<&str>,
        now: Instant,
    ) -> (r: Result<(), PlumeError>)
        requires
            now.valid(),
        ensures
            match entitlements {
                None => r matches Err(e) && says_invalid(
                    e,
                    "signed executable has no entitlements"@,
                ),
                Some(signed) => {
                    let refusal = final_refusal(
                        profile@,
                        platform,
                        bundle_id@,
                        opt_str(device_udid),
                        self.der(),
                        signed@,
                        now,
                    );
                    match r {
                        Ok(_) => refusal is None,
                        Err(PlumeError::Core(e)) => refusal is Some && outcome(Err(e), refusal),
                        Err(_) => false,
                    }
                },
            },
    {
        match entitlements {
            None => Err(invalid("signed executable has no entitlements")),
            Some(signed) => match profile.validate_final_entitlements(
                platform,
                bundle_id,
                device_udid,
                self.certificate_bytes(),
                signed,
                now,
            ) {
                Ok(_) => Ok(()),
                Err(e) => Err(PlumeError::Core(e)),
            },
        }
    }
}

/// What the executable of a signed bundle holds.
#[derive(Debug)]
pub struct SignedExecutable {
    pub has_code_signature: bool,
    /// What verifying the signature brought up.
    pub problems: Vec<String>,
    pub entitlements: Option<PlistDictionary>,
}

/// A signed bundle, with what came of reading its executable and its profile.
pub struct SignedBundle {
    pub facts: BundleFacts,
    pub executable: Result<SignedExecutable, PlumeError>,
    pub profile: Result<MobileProvision, PlumeError>,
}

impl Signer {
    /// A bundle was signed as it must be: `e` is none. Otherwise `e` is the error that says why not.
    pub open spec fn judged(
        self,
        b: SignedBundle,
        target: SigningTarget,
        e: Option<PlumeError>,
    ) -> bool {
        if self.options.mode == SignerMode::NoModify || b.facts.kind == BundleType::Unknown {
            e is None
        } else if b.facts.kind != BundleType::Dylib && b.facts.executable is None {
            e matches Some(e) && says(e, "Signed bundle has no executable"@)
        } else {
            match b.executable {
                Err(read) => e == Some(read),
                Ok(exe) => if !exe.has_code_signature {
                    e matches Some(e) && says(
                        e,
                        "Signed bundle "@ + b.facts.dir@ + " has no code signature"@,
                    )
                } else if self.options.mode != SignerMode::Adhoc && exe.problems@.len() > 0 {
                    e matches Some(e) && says(
                        e,
                        "Signature verification failed for "@ + b.facts.dir@ + ": "@
                            + exe.problems@[0]@,
                    )
                } else if !b.facts.entitled {
                    e is None
                } else {
                    self.entitled_as(b, exe, target, e)
                },
            }
        }
    }

    /// The entitlements of a signed bundle fit its profile: `e` is none. Otherwise `e` is the error
    /// that says why not.
    pub open spec fn entitled_as(
        self,
        b: SignedBundle,
        exe: SignedExecutable,
        target: SigningTarget,
        e: Option<PlumeError>,
    ) -> bool {
        match (b.facts.identifier, b.profile) {
            (None, _) => e matches Some(e) && says(e, "Signed bundle has no bundle identifier"@),
            (Some(_), Err(read)) => e == Some(read),
            (Some(id), Ok(profile)) => match exe.entitlements {
                None => e matches Some(e) && says_invalid(
                    e,
                    "signed executable has no entitlements"@,
                ),
                Some(signed) => {
                    let refusal = final_refusal(
                        profile@,
                        target.platform,
                        id@,
                        opt_str(target.device_udid),
                        self.der(),
                        signed@,
                        target.now,
                    );
                    match e {
                        None => refusal is None,
                        Some(e) => refusal is Some && (e matches PlumeError::Core(c) && outcome(
                            Err(c),
                            refusal,
                        )),
                    }
                },
            },
        }
    }

    fn judge(&self, b: SignedBundle, target: SigningTarget) -> (r: Result<(), PlumeError>)
        requires
            target.now.valid(),
        ensures
            self.judged(
                b,
                target,
                match r {
                    Ok(_) => None,
                    Err(e) => Some(e),
                },
            ),
    {
        match self.signed_executable(&b.facts) {
            Err(e) => {
                return Err(e);
            },
            Ok(SignedCheck::Skip) => {
                return Ok(());
            },
            Ok(SignedCheck::Executable(_)) => {},
        }
        let exe: SignedExecutable = match b.executable {
            Ok(exe) => exe,
            Err(e) => {
                return Err(e);
            },
        };
        let bundle_id: String = match self.check_signature(
            &b.facts,
            exe.has_code_signature,
            &exe.problems,
        ) {
            Err(e) => {
                return Err(e);
            },
            Ok(EntitlementCheck::Done) => {
                return Ok(());
            },
            Ok(EntitlementCheck::Profile { bundle_id, .. }) => bundle_id,
        };
        let profile: MobileProvision = match b.profile {
            Ok(profile) => profile,
            Err(e) => {
                return Err(e);
            },
        };
        self.check_signed_entitlements(
            &profile,
            bundle_id.as_str(),
            exe.entitlements.as_ref(),
            target.platform,
            target.device_udid,
            target.now,
        )
    }

    /// Checks an app and all that is in it after signing. The first bundle that was not signed as it
    /// must be ends the check with an error.
    pub fn validate_signed_bundle(&self, bundles: Vec<SignedBundle>, target: SigningTarget) -> (r:
        Result<(), PlumeError>)
        requires
            target.now.valid(),
        ensures
            match r {
                Ok(_) => forall|k: int|
                    0 <= k < bundles@.len() ==> self.judged(#[trigger] bundles@[k], target, None),
                Err(e) => exists|k: int|
                    0 <= k < bundles@.len() && self.judged(
                        #[trigger] bundles@[k],
                        target,
                        Some(e),
                    ) && forall|j: int|
                        0 <= j < k ==> self.judged(#[trigger] bundles@[j], target, None),
            },
    {
        let ghost all = bundles@;
        let mut rest: Vec<SignedBundle> = bundles;
        let ghost mut n: int = 0;
        proof {
            assert(all.skip(0) =~= all);
        }
        while rest.len() > 0
            invariant
                target.now.valid(),
                all == bundles@,
                0 <= n <= all.len(),
                rest@ == all.skip(n),
                forall|k: int| 0 <= k < n ==> self.judged(#[trigger] all[k], target, None),
            decreases rest@.len(),
        {
            let b: SignedBundle = rest.remove(0);
            proof {
                assert(b == all[n]);
                assert(rest@ =~= all.skip(n + 1));
            }
            if let Err(e) = self.judge(b, target) {
                proof {
                    assert(self.judged(all[n], target, Some(e)));
                }
                return Err(e);
            }
            proof {
                n = n + 1;
            }
        }
        Ok(())
    }
}

/// A bundle that carries entitlements passes the check after signing only with a profile that grants
/// what it was signed with.
pub proof fn law_signed_bundle_is_granted(signer: Signer, b: SignedBundle, target: SigningTarget)
    requires
        signer.judged(b, target, None),
        signer.options.mode != SignerMode::NoModify,
        b.facts.kind != BundleType::Unknown,
        b.facts.entitled,
    ensures
        b.facts.identifier is Some,
        b.executable matches Ok(exe) && exe.has_code_signature && (exe.entitlements matches Some(
            signed,
        ) && (b.profile matches Ok(profile) && final_refusal(
            profile@,
            target.platform,
            b.facts.identifier->0@,
            opt_str(target.device_udid),
            signer.der(),
            signed@,
            target.now,
        ) is None)),
{
}

/// A bundle that passes the check before signing has a profile that is in force, that lists the
/// certificate and, where one was chosen, the device, and that holds everything of a plain kind that
/// the executable asks for.
pub proof fn law_passing_bundle_is_allowed<
    F: Fn(PlistDictionary, PlistDictionary, Option<String>, String) -> PlistDictionary,
    C: Fn() -> Result<PlistValue, PlumeError>,
>(signer: Signer, bundle: SignableBundle, target: SigningTarget, merge: F, read_custom: C)
    requires
        signer.passes(bundle, target, merge, read_custom),
    ensures
        exists|p: int|
            0 <= p < signer.provisioning_files@.len() && {
                let profile = #[trigger] signer.provisioning_files@[p];
                &&& target.now.at() < profile.expiration_date.at()
                &&& signer.certificate matches Some(c) && (c.der matches Some(der)
                    && profile@.certificates.contains(der@))
                &&& target.device_udid matches Some(u) ==> crate::provision::lists_device(
                    profile@.devices,
                    u@,
                )
            },
{
    let p = choose|p: usize| #[trigger] signer.first_fit(bundle, target, p);
    let profile = signer.provisioning_files@[p as int];
    crate::provision::law_accepted_profile(
        profile@,
        target.platform,
        (bundle.facts.identifier->0)@,
        opt_str(target.device_udid),
        signer.der(),
        requested_by(bundle),
        target.now,
    );
    assert(signer.provisioning_files@[p as int] == profile);
}

/// A bundle without a code signature never passes the check after signing, and neither does one whose
/// signature has a problem where a team signs, or whose executable could not be read.
pub proof fn law_unsigned_bundle_is_refused(signer: Signer, b: SignedBundle, target: SigningTarget)
    requires
        signer.options.mode != SignerMode::NoModify,
        b.facts.kind != BundleType::Unknown,
        match b.executable {
            Err(_) => true,
            Ok(exe) => !exe.has_code_signature || (signer.options.mode == SignerMode::Pem
                && exe.problems@.len() > 0),
        },
    ensures
        !signer.judged(b, target, None),
{
}

/// A bundle with entitlements never passes the check after signing without its profile, or without
/// entitlements in its executable.
pub proof fn law_entitled_bundle_needs_its_profile(
    signer: Signer,
    b: SignedBundle,
    target: SigningTarget,
)
    requires
        signer.options.mode != SignerMode::NoModify,
        b.facts.kind != BundleType::Unknown,
        b.facts.entitled,
        b.profile is Err || b.facts.identifier is None || (b.executable matches Ok(exe)
            && exe.entitlements is None),
    ensures
        !signer.judged(b, target, None),
{
}

/// The bundles that are checked before signing are all those with entitlements.
pub proof fn law_all_entitled_bundles_are_checked(bundles: Seq<SignableBundle>, n: int)
    requires
        0 <= n <= bundles.len(),
    ensures
        forall|i: int|
            0 <= i < n && (#[trigger] bundles[i]).facts.entitled ==> entitled_bundles(
                bundles,
                n,
            ).contains(bundles[i]),
        forall|j: int|
            0 <= j < entitled_bundles(bundles, n).len() ==> (#[trigger] entitled_bundles(
                bundles,
                n,
            )[j]).facts.entitled,
    decreases n,
{
    if n > 0 {
        law_all_entitled_bundles_are_checked(bundles, n - 1);
        let head = entitled_bundles(bundles, n - 1);
        let all = entitled_bundles(bundles, n);
        assert forall|i: int|
            0 <= i < n && (#[trigger] bundles[i]).facts.entitled implies all.contains(
            bundles[i],
        ) by {
            if i < n - 1 {
                let j = choose|j: int| 0 <= j < head.len() && head[j] == bundles[i];
                assert(all[j] == bundles[i]);
            } else {
                assert(all[head.len() as int] == bundles[i]);
            }
        }
    }
}

} // verus!
