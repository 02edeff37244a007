//! Opening a tunnel to a paired Apple TV, and what is done through a device's transport.
use crate::device::{
    cache_key, cache_path_result, endpoint_text, pairing_cache_path_for, CoreDeviceTransport,
    Device, Endpoint,
};
use crate::error::PlumeError;
use crate::text::{chars_of, join2, join4, string_of};
use crate::tvos::says;
use vstd::prelude::*;

verus! {

fn other(message: &str) -> (r: PlumeError)
    ensures
        says(r, message@),
{
    PlumeError::Other(message.to_string())
}

/// What the opening of a tunnel waits for.
#[derive(Debug, Clone, Copy, PartialEq, Eq, Structural)]
pub enum TunnelPhase {
    LookingForRecord,
    ReadingRecord,
    ImportingFirst,
    Attempting,
    ImportingAgain,
    Finished,
}

/// What is to be done next.
#[derive(Debug)]
pub enum TunnelAction {
    /// Read the record at the path of this tunnel.
    ReadRecord,
    /// Try the records of the system at the tunnel's address.
    ImportExternal,
    /// Remove the record, whatever comes of it, and try the records of the system.
    RemoveAndImport,
    /// Connect, verify and open the tunnel with the record at hand.
    Attempt,
    Finish(Result<(), PlumeError>),
}

/// Where an attempt to open the tunnel failed.
#[derive(Debug)]
pub enum AttemptFailure {
    Connect(String),
    PairVerify(String),
    Validate(String),
    Listener(String),
    TunnelConnect(String),
    TunnelHandshake(String),
}

/// The attempt failed because the pairing was refused.
pub open spec fn pairing_refused(f: AttemptFailure) -> bool {
    f is PairVerify || f is Validate
}

/// What is said of a failed attempt.
pub open spec fn attempt_text(f: AttemptFailure, address: Endpoint) -> Seq<char> {
    match f {
        AttemptFailure::Connect(e) => "Could not connect to Apple TV at "@ + endpoint_text(address)
            + ": "@ + e@,
        AttemptFailure::PairVerify(e) => "Pair-verify failed: "@ + e@,
        AttemptFailure::Validate(e) =>
            "This Apple TV no longer recognizes this pairing (it may have been reset, forgotten, or lost pairing after a system update); pair with it again: "@
            + e@,
        AttemptFailure::Listener(e) => "Failed to create tunnel listener: "@ + e@,
        AttemptFailure::TunnelConnect(e) => "TLS tunnel connect failed: "@ + e@,
        AttemptFailure::TunnelHandshake(e) => "TLS-PSK tunnel handshake failed: "@ + e@,
    }
}

/// The error that stands for a failed attempt.
pub fn attempt_error(f: &AttemptFailure, address: &Endpoint) -> (r: PlumeError)
    ensures
        says(r, attempt_text(*f, *address)),
{
    let text: String = match f {
        AttemptFailure::Connect(e) => join4(
            "Could not connect to Apple TV at ",
            address.to_text().as_str(),
            ": ",
            e.as_str(),
        ),
        AttemptFailure::PairVerify(e) => join2("Pair-verify failed: ", e.as_str()),
        AttemptFailure::Validate(e) => join2(
            "This Apple TV no longer recognizes this pairing (it may have been reset, forgotten, or lost pairing after a system update); pair with it again: ",
            e.as_str(),
        ),
        AttemptFailure::Listener(e) => join2("Failed to create tunnel listener: ", e.as_str()),
        AttemptFailure::TunnelConnect(e) => join2("TLS tunnel connect failed: ", e.as_str()),
        AttemptFailure::TunnelHandshake(e) => join2(
            "TLS-PSK tunnel handshake failed: ",
            e.as_str(),
        ),
    };
    PlumeError::Other(text)
}

/// One opening of a tunnel.
#[derive(Debug)]
pub struct TunnelSetup {
    pub address: Endpoint,
    pub cache_path: String,
    /// A record that is refused may still be replaced by one of the system.
    pub can_try_external: bool,
    /// The attempts so far.
    pub attempts: u8,
    /// The error of a refused attempt while another record is looked for.
    pub refusal: Option<PlumeError>,
    pub phase: TunnelPhase,
}

impl TunnelSetup {
    /// No more than two attempts are ever made, and no second one before another record was found.
    pub open spec fn wf(self) -> bool {
        match self.phase {
            TunnelPhase::LookingForRecord | TunnelPhase::ReadingRecord
            | TunnelPhase::ImportingFirst => self.attempts == 0 && self.refusal is None,
            TunnelPhase::Attempting => self.attempts == if self.can_try_external {
                1u8
            } else {
                self.attempts
            } && 1 <= self.attempts <= 2,
            TunnelPhase::ImportingAgain => self.attempts == 1 && !self.can_try_external
                && self.refusal is Some,
            TunnelPhase::Finished => self.attempts <= 2,
        }
    }

    /// The action is the one whose outcome the tunnel waits for.
    pub open spec fn asks_for(self, r: TunnelAction) -> bool {
        match self.phase {
            TunnelPhase::LookingForRecord => false,
            TunnelPhase::ReadingRecord => r is ReadRecord,
            TunnelPhase::ImportingFirst => r is ImportExternal,
            TunnelPhase::Attempting => r is Attempt,
            TunnelPhase::ImportingAgain => r is RemoveAndImport,
            TunnelPhase::Finished => r is Finish,
        }
    }

    /// How far the opening has come. Every answer brings it further, so that it ends.
    pub open spec fn rank(self) -> int {
        match self.phase {
            TunnelPhase::LookingForRecord => 0,
            TunnelPhase::ReadingRecord | TunnelPhase::ImportingFirst => 1,
            TunnelPhase::Attempting => if self.can_try_external {
                2
            } else {
                4
            },
            TunnelPhase::ImportingAgain => 3,
            TunnelPhase::Finished => 5,
        }
    }

    /// Prepares the opening of a tunnel to a device. It needs the address for reconnecting.
    pub fn new(
        pairing_address: &Option<Endpoint>,
        reconnect_address: &Option<Endpoint>,
        pairing_identity: Option<&str>,
        udid: &str,
        cache_dir: &str,
    ) -> (r: Result<TunnelSetup, PlumeError>)
        ensures
            match reconnect_address {
                None => r matches Err(e) && says(
                    e,
                    if pairing_address is Some {
                        "Apple TV has only its manual-pairing service; discover its verified _remotepairing._tcp service before opening a tunnel"@
                    } else {
                        "Device has no network address"@
                    },
                ),
                Some(address) => match r {
                    Ok(t) => t.address == *address && t.phase == TunnelPhase::LookingForRecord
                        && t.can_try_external && t.wf() && cache_path_result(
                        Ok(t.cache_path),
                        cache_key(crate::platform::opt_str(pairing_identity), udid@),
                        cache_dir@,
                    ),
                    Err(e) => cache_path_result(
                        Err(e),
                        cache_key(crate::platform::opt_str(pairing_identity), udid@),
                        cache_dir@,
                    ),
                },
            },
    {
        match reconnect_address {
            None => if pairing_address.is_some() {
                Err(
                    other(
                        "Apple TV has only its manual-pairing service; discover its verified _remotepairing._tcp service before opening a tunnel",
                    ),
                )
            } else {
                Err(other("Device has no network address"))
            },
            Some(address) => match pairing_cache_path_for(pairing_identity, udid, cache_dir) {
                Err(e) => Err(e),
                Ok(cache_path) => Ok(
                    TunnelSetup {
                        address: address.clone(),
                        cache_path,
                        can_try_external: true,
                        attempts: 0,
                        refusal: None,
                        phase: TunnelPhase::LookingForRecord,
                    },
                ),
            },
        }
    }

    /// Whether there is a record: it is read, or records of the system are tried.
    pub fn looked(&mut self, record_exists: bool) -> (r: TunnelAction)
        requires
            old(self).wf(),
            old(self).phase == TunnelPhase::LookingForRecord,
        ensures
            final(self).wf(),
            final(self).rank() > old(self).rank(),
            final(self).asks_for(r),
            r == if record_exists {
                TunnelAction::ReadRecord
            } else {
                TunnelAction::ImportExternal
            },
            *final(self) == (TunnelSetup {
                can_try_external: record_exists,
                phase: if record_exists {
                    TunnelPhase::ReadingRecord
                } else {
                    TunnelPhase::ImportingFirst
                },
                ..*old(self)
            }),
    {
        self.can_try_external = record_exists;
        if record_exists {
            self.phase = TunnelPhase::ReadingRecord;
            TunnelAction::ReadRecord
        } else {
            self.phase = TunnelPhase::ImportingFirst;
            TunnelAction::ImportExternal
        }
    }

    /// The record was read.
    pub fn record_read(&mut self, outcome: Result<(), PlumeError>) -> (r: TunnelAction)
        requires
            old(self).wf(),
            old(self).phase == TunnelPhase::ReadingRecord,
        ensures
            final(self).wf(),
            final(self).rank() > old(self).rank(),
            final(self).asks_for(r),
            !(r matches TunnelAction::Finish(Ok(_))),
            outcome is Err ==> r is Finish,
            match outcome {
                Ok(_) => r == TunnelAction::Attempt && *final(self) == (TunnelSetup {
                    attempts: 1,
                    phase: TunnelPhase::Attempting,
                    ..*old(self)
                }),
                Err(e) => r == TunnelAction::Finish(Err(e)) && *final(self) == (TunnelSetup {
                    phase: TunnelPhase::Finished,
                    ..*old(self)
                }),
            },
    {
        match outcome {
            Ok(_) => {
                self.attempts = 1;
                self.phase = TunnelPhase::Attempting;
                TunnelAction::Attempt
            },
            Err(e) => {
                self.phase = TunnelPhase::Finished;
                TunnelAction::Finish(Err(e))
            },
        }
    }

    /// Records of the system were tried: whether one was taken over.
    pub fn imported(&mut self, outcome: Result<bool, PlumeError>) -> (r: TunnelAction)
        requires
            old(self).wf(),
            old(self).phase == TunnelPhase::ImportingFirst || old(self).phase
                == TunnelPhase::ImportingAgain,
        ensures
            final(self).wf(),
            final(self).rank() > old(self).rank(),
            final(self).asks_for(r),
            final(self).address == old(self).address,
            final(self).cache_path == old(self).cache_path,
            final(self).can_try_external == old(self).can_try_external,
            !(r matches TunnelAction::Finish(Ok(_))),
            outcome is Err ==> r is Finish,
            match outcome {
                Ok(true) => r == TunnelAction::Attempt && final(self).phase
                    == TunnelPhase::Attempting && final(self).attempts == old(self).attempts + 1
                    && final(self).refusal is None,
                Ok(false) => final(self).refusal is None && final(self).phase == TunnelPhase::Finished && final(self).attempts
                    == old(self).attempts && match old(self).refusal {
                    Some(e) => r == TunnelAction::Finish(Err(e)),
                    None => r matches TunnelAction::Finish(Err(e)) && says(
                        e,
                        "No pairing record is cached for this Apple TV; pair before reconnecting"@,
                    ),
                },
                Err(e) => r == TunnelAction::Finish(Err(e)) && final(self).phase
                    == TunnelPhase::Finished && final(self).attempts == old(self).attempts
                    && final(self).refusal == old(self).refusal,
            },
    {
        match outcome {
            Ok(true) => {
                self.attempts = self.attempts + 1;
                self.phase = TunnelPhase::Attempting;
                self.refusal = None;
                TunnelAction::Attempt
            },
            Ok(false) => {
                self.phase = TunnelPhase::Finished;
                match self.refusal.take() {
                    Some(e) => TunnelAction::Finish(Err(e)),
                    None => TunnelAction::Finish(
                        Err(
                            other(
                                "No pairing record is cached for this Apple TV; pair before reconnecting",
                            ),
                        ),
                    ),
                }
            },
            Err(e) => {
                self.phase = TunnelPhase::Finished;
                TunnelAction::Finish(Err(e))
            },
        }
    }

    /// The tunnel was tried. Only a refused pairing, and only once, leads to another record.
    pub fn attempted(&mut self, outcome: Result<(), AttemptFailure>) -> (r: TunnelAction)
        requires
            old(self).wf(),
            old(self).phase == TunnelPhase::Attempting,
        ensures
            final(self).wf(),
            final(self).rank() > old(self).rank(),
            final(self).asks_for(r),
            final(self).address == old(self).address,
            final(self).cache_path == old(self).cache_path,
            final(self).attempts == old(self).attempts,
            (r matches TunnelAction::Finish(Ok(_))) <==> outcome is Ok,
            r is RemoveAndImport ==> (outcome matches Err(f) && (f is PairVerify || f is Validate))
                && old(self).can_try_external && !final(self).can_try_external,
            match outcome {
                Ok(_) => r == TunnelAction::Finish(Ok(())) && *final(self) == (TunnelSetup {
                    phase: TunnelPhase::Finished,
                    ..*old(self)
                }),
                Err(f) => if pairing_refused(f) && old(self).can_try_external {
                    r == TunnelAction::RemoveAndImport && final(self).phase
                        == TunnelPhase::ImportingAgain && !final(self).can_try_external && (final(self).refusal matches Some(e) && says(e, attempt_text(f, old(self).address)))
                } else {
                    *final(self) == (TunnelSetup {
                        phase: TunnelPhase::Finished,
                        ..*old(self)
                    }) && (r matches TunnelAction::Finish(Err(e)) && says(e, attempt_text(f, old(self).address)))
                },
            },
    {
        match outcome {
            Ok(_) => {
                self.phase = TunnelPhase::Finished;
                TunnelAction::Finish(Ok(()))
            },
            Err(f) => {
                let e: PlumeError = attempt_error(&f, &self.address);
                let refused: bool = match f {
                    AttemptFailure::PairVerify(_) | AttemptFailure::Validate(_) => true,
                    _ => false,
                };
                if refused && self.can_try_external {
                    self.can_try_external = false;
                    self.refusal = Some(e);
                    self.phase = TunnelPhase::ImportingAgain;
                    TunnelAction::RemoveAndImport
                } else {
                    self.phase = TunnelPhase::Finished;
                    TunnelAction::Finish(Err(e))
                }
            },
        }
    }
}

/// The largest segment for a tunnel with the given transfer unit: sixty bytes are left for headers.
pub fn tunnel_mss(mtu: usize) -> (r: usize)
    ensures
        r == if mtu >= 60 {
            mtu - 60
        } else {
            0
        },
{
    if mtu >= 60 {
        mtu - 60
    } else {
        0
    }
}

/// What can fail once the tunnel stands.
#[derive(Debug)]
pub enum TunnelUseFailure {
    ClientAddress(String),
    ServerAddress(String),
    Connection(String),
    Handshake(String),
}

/// The error that stands for a failure once the tunnel stands.
pub fn tunnel_use_error(f: &TunnelUseFailure) -> (r: PlumeError)
    ensures
        says(
            r,
            match f {
                TunnelUseFailure::ClientAddress(e) => "Invalid tunnel client address: "@ + e@,
                TunnelUseFailure::ServerAddress(e) => "Invalid tunnel server address: "@ + e@,
                TunnelUseFailure::Connection(e) => "RSD connection failed: "@ + e@,
                TunnelUseFailure::Handshake(e) => "RSD handshake failed: "@ + e@,
            },
        ),
{
    PlumeError::Other(
        match f {
            TunnelUseFailure::ClientAddress(e) => join2(
                "Invalid tunnel client address: ",
                e.as_str(),
            ),
            TunnelUseFailure::ServerAddress(e) => join2(
                "Invalid tunnel server address: ",
                e.as_str(),
            ),
            TunnelUseFailure::Connection(e) => join2("RSD connection failed: ", e.as_str()),
            TunnelUseFailure::Handshake(e) => join2("RSD handshake failed: ", e.as_str()),
        },
    )
}

// ---------------------------------------------------------------------------
// Records of the system
// ---------------------------------------------------------------------------

/// What is to be done next while records of the system are tried.
#[derive(Debug, Clone, Copy, PartialEq, Eq, Structural)]
pub enum ImportStep {
    /// Try the record with this index.
    Try(usize),
    /// Write the record with this index and use it.
    Import(usize),
    NoneLeft,
}

/// The trial of several records in turn.
#[derive(Debug)]
pub struct ImportTrial {
    pub tried: usize,
    pub total: usize,
}

impl ImportTrial {
    pub open spec fn wf(self) -> bool {
        self.tried <= self.total
    }

    /// Begins with the first record. Without an address nothing is tried.
    pub fn new(has_address: bool, total: usize) -> (r: (ImportTrial, ImportStep))
        ensures
            r.0.wf(),
            r.0.tried == 0,
            r.0.total == if has_address {
                total
            } else {
                0
            },
            r.1 == if has_address && total > 0 {
                ImportStep::Try(0)
            } else {
                ImportStep::NoneLeft
            },
    {
        if has_address && total > 0 {
            (ImportTrial { tried: 0, total }, ImportStep::Try(0))
        } else {
            (
                ImportTrial {
                    tried: 0,
                    total: if has_address {
                        total
                    } else {
                        0
                    },
                },
                ImportStep::NoneLeft,
            )
        }
    }

    /// The current record was tried: it is used where the device could be reached and the record
    /// verifies, else the next one is tried.
    pub fn tried(&mut self, connected: bool, verified: bool, validated: bool) -> (r: ImportStep)
        requires
            old(self).wf(),
            old(self).tried < old(self).total,
        ensures
            final(self).wf(),
            final(self).total == old(self).total,
            r matches ImportStep::Import(k) ==> k == old(self).tried && connected && verified
                && validated,
            r matches ImportStep::Try(k) ==> k == old(self).tried + 1 && k < old(self).total,
            r == ImportStep::NoneLeft ==> old(self).tried + 1 == old(self).total,
            if connected && verified && validated {
                r == ImportStep::Import(old(self).tried) && *final(self) == *old(self)
            } else {
                final(self).tried == old(self).tried + 1 && r == if final(self).tried < final(self).total {
                    ImportStep::Try(final(self).tried)
                } else {
                    ImportStep::NoneLeft
                }
            },
    {
        if connected && verified && validated {
            return ImportStep::Import(self.tried);
        }
        self.tried = self.tried + 1;
        if self.tried < self.total {
            ImportStep::Try(self.tried)
        } else {
            ImportStep::NoneLeft
        }
    }
}

// ---------------------------------------------------------------------------
// Transports
// ---------------------------------------------------------------------------

/// How a device's services are used.
#[derive(Debug)]
pub enum ServiceRoute {
    /// By way of the multiplexing daemon.
    Usbmuxd,
    /// Through a tunnel.
    Tunnel(CoreDeviceTransport),
}

/// The route to a device's services; what is said where there is none is given.
pub open spec fn routed(
    device: Device,
    r: Result<ServiceRoute, PlumeError>,
    no_cache_dir: Seq<char>,
    no_transport: Seq<char>,
) -> bool {
    if device.usbmuxd_device is Some {
        r == Ok::<ServiceRoute, PlumeError>(ServiceRoute::Usbmuxd)
    } else if device.networked() {
        match device.pairing_cache_dir {
            Some(dir) => r == Ok::<ServiceRoute, PlumeError>(
                ServiceRoute::Tunnel(
                    CoreDeviceTransport {
                        pairing_address: device.pairing_address,
                        reconnect_address: device.reconnect_address,
                        pairing_identity: device.pairing_identity,
                        udid: device.udid,
                        cache_dir: dir,
                        authenticated: device.core_device_authenticated,
                    },
                ),
            ),
            None => r matches Err(e) && says(e, no_cache_dir),
        }
    } else {
        r matches Err(e) && says(e, no_transport)
    }
}

impl Device {
    fn route(&self, no_cache_dir: &str, no_transport: &str) -> (r: Result<
        ServiceRoute,
        PlumeError,
    >)
        ensures
            routed(*self, r, no_cache_dir@, no_transport@),
    {
        if self.usbmuxd_device.is_some() {
            Ok(ServiceRoute::Usbmuxd)
        } else if self.is_network() {
            match &self.pairing_cache_dir {
                Some(dir) => match self.core_device_transport(dir.clone()) {
                    Ok(t) => Ok(ServiceRoute::Tunnel(t)),
                    Err(e) => Err(e),
                },
                None => Err(other(no_cache_dir)),
            }
        } else {
            Err(other(no_transport))
        }
    }

    /// The route for listing apps and installing profiles.
    pub fn service_route(&self) -> (r: Result<ServiceRoute, PlumeError>)
        ensures
            routed(
                *self,
                r,
                "Network Apple TV has no pairing cache directory"@,
                "Device has no installation transport"@,
            ),
    {
        self.route(
            "Network Apple TV has no pairing cache directory",
            "Device has no installation transport",
        )
    }

    /// The route for installing an app.
    pub fn install_route(&self) -> (r: Result<ServiceRoute, PlumeError>)
        ensures
            routed(
                *self,
                r,
                "Network Apple TV has no pairing_cache_dir configured on this Device; install_app has nowhere to look for its pairing file"@,
                "Device has no USB connection and no network address; cannot install"@,
            ),
    {
        self.route(
            "Network Apple TV has no pairing_cache_dir configured on this Device; install_app has nowhere to look for its pairing file",
            "Device has no USB connection and no network address; cannot install",
        )
    }

    /// What needs a device on the multiplexing daemon fails for others.
    pub fn require_usb(&self) -> (r: Result<(), PlumeError>)
        ensures
            match r {
                Ok(_) => self.usbmuxd_device is Some,
                Err(e) => self.usbmuxd_device is None && says(
                    e,
                    "Device is not connected via USB"@,
                ),
            },
    {
        if self.usbmuxd_device.is_some() {
            Ok(())
        } else {
            Err(other("Device is not connected via USB"))
        }
    }

    /// Whether there is a pairing to use: a record that is kept, or on a Mac one of the system.
    pub fn has_pairing_source(&self, cached: bool, on_mac: bool, native: bool) -> (r: bool)
        ensures
            r == (cached || (on_mac && native)),
    {
        cached || (on_mac && native)
    }
}

/// The file that keeps the pairing of a device with this machine by its own identifier.
pub fn rsd_pairing_file_name(udid: &str) -> (r: String)
    ensures
        r@ == "plume_"@ + udid@ + ".plist"@,
{
    crate::text::join3("plume_", udid, ".plist")
}

/// The first six characters of a random identifier.
pub fn short_suffix(identifier: &str) -> (r: String)
    ensures
        r@ == if identifier@.len() < 6 {
            identifier@
        } else {
            identifier@.take(6)
        },
{
    let chars: Vec<char> = chars_of(identifier);
    if chars.len() < 6 {
        identifier.to_string()
    } else {
        let r: String = string_of(&chars, 0, 6);
        proof {
            assert(r@ =~= identifier@.take(6));
        }
        r
    }
}

// ---------------------------------------------------------------------------
// Directories on a device
// ---------------------------------------------------------------------------

/// The directories to make, outermost first, for components of a path below a root.
pub open spec fn nested_dirs(parts: Seq<Seq<char>>, rooted: bool, n: int) -> Seq<Seq<char>>
    decreases n,
{
    if n <= 0 {
        seq![]
    } else {
        let head = nested_dirs(parts, rooted, n - 1);
        let parent = if n == 1 {
            if rooted {
                "/"@
            } else {
                ""@
            }
        } else {
            head.last() + "/"@
        };
        head.push(parent + parts[n - 1])
    }
}

/// The directories to make so that a file below nested directories can be written. `parts` are the
/// normal components of the file's parent.
pub fn directories_to_make(parts: &Vec<String>, rooted: bool) -> (r: Vec<String>)
    ensures
        crate::text::texts(r@) == nested_dirs(
            crate::text::texts(parts@),
            rooted,
            parts@.len() as int,
        ),
{
    let ghost shown = crate::text::texts(parts@);
    let mut r: Vec<String> = Vec::new();
    let mut current: String = (if rooted {
        "/"
    } else {
        ""
    }).to_string();
    let mut i: usize = 0;
    proof {
        assert(crate::text::texts(r@) =~= nested_dirs(shown, rooted, 0));
    }
    while i < parts.len()
        invariant
            i <= parts@.len(),
            shown == crate::text::texts(parts@),
            crate::text::texts(r@) == nested_dirs(shown, rooted, i as int),
            r@.len() == i,
            current@ == if i == 0 {
                if rooted {
                    "/"@
                } else {
                    ""@
                }
            } else {
                r@[i - 1]@ + "/"@
            },
        decreases parts@.len() - i,
    {
        let ghost before = r@;
        proof {
            assert(shown[i as int] == parts@[i as int]@);
            if i > 0 {
                assert(crate::text::texts(before).last() == before[i - 1]@);
            }
        }
        let dir: String = join2(current.as_str(), parts[i].as_str());
        current = join2(dir.as_str(), "/");
        let ghost shown_dir = dir@;
        r.push(dir);
        proof {
            assert(crate::text::texts(r@) =~= crate::text::texts(before).push(shown_dir));
        }
        i += 1;
    }
    r
}

/// The directories to make on a device before a file can be written at `path`.
pub fn directories_for(path: &str) -> (r: Vec<String>)
    ensures
        crate::text::texts(r@) == nested_dirs(
            crate::paths::parent_parts(path@),
            path@.len() > 0 && path@[0] == '/',
            crate::paths::parent_parts(path@).len() as int,
        ),
{
    let parts: Vec<String> = crate::paths::parent_components(path);
    let chars: Vec<char> = chars_of(path);
    let rooted: bool = chars.len() > 0 && chars[0] == '/';
    proof {
        assert(crate::text::texts(parts@).len() == parts@.len());
    }
    directories_to_make(&parts, rooted)
}

/// What an error of the connection says is told in full, behind words of its own.
pub proof fn law_attempt_text_tells_the_error(f: AttemptFailure, address: Endpoint)
    ensures
        ({
            let e = match f {
                AttemptFailure::Connect(e) => e@,
                AttemptFailure::PairVerify(e) => e@,
                AttemptFailure::Validate(e) => e@,
                AttemptFailure::Listener(e) => e@,
                AttemptFailure::TunnelConnect(e) => e@,
                AttemptFailure::TunnelHandshake(e) => e@,
            };
            let text = attempt_text(f, address);
            text.len() >= e.len() && text.skip(text.len() - e.len()) == e
        }),
{
    let text = attempt_text(f, address);
    match f {
        AttemptFailure::Connect(e) => {
            assert(text.skip(text.len() - e@.len()) =~= e@);
        },
        AttemptFailure::PairVerify(e) => {
            assert(text.skip(text.len() - e@.len()) =~= e@);
        },
        AttemptFailure::Validate(e) => {
            assert(text.skip(text.len() - e@.len()) =~= e@);
        },
        AttemptFailure::Listener(e) => {
            assert(text.skip(text.len() - e@.len()) =~= e@);
        },
        AttemptFailure::TunnelConnect(e) => {
            assert(text.skip(text.len() - e@.len()) =~= e@);
        },
        AttemptFailure::TunnelHandshake(e) => {
            assert(text.skip(text.len() - e@.len()) =~= e@);
        },
    }
}

/// A device on the multiplexing daemon is reached there; one on the network by a tunnel with its own
/// addresses and identity, where its pairing is kept; any other cannot be reached.
pub proof fn law_services_are_reached(
    device: Device,
    r: Result<ServiceRoute, PlumeError>,
    no_cache_dir: Seq<char>,
    no_transport: Seq<char>,
)
    requires
        routed(device, r, no_cache_dir, no_transport),
    ensures
        device.usbmuxd_device is Some <==> (r matches Ok(ServiceRoute::Usbmuxd)),
        r matches Ok(ServiceRoute::Tunnel(t)) ==> t.reconnect_address == device.reconnect_address
            && t.pairing_address == device.pairing_address && t.pairing_identity
            == device.pairing_identity && t.udid == device.udid && t.authenticated
            == device.core_device_authenticated && device.pairing_cache_dir == Some(t.cache_dir),
        r is Ok <==> device.usbmuxd_device is Some || ((device.core_device_authenticated
            || device.pairing_address is Some || device.reconnect_address is Some)
            && device.pairing_cache_dir is Some),
{
}

/// The directories of a path are nested: each is the one before it with the next part, and the first
/// stands at the root or nowhere.
pub proof fn law_directories_are_nested(parts: Seq<Seq<char>>, rooted: bool, n: int)
    requires
        0 <= n <= parts.len(),
    ensures
        nested_dirs(parts, rooted, n).len() == n,
        n > 0 ==> nested_dirs(parts, rooted, n)[0] == (if rooted {
            seq!['/']
        } else {
            seq![]
        }) + parts[0],
        forall|i: int|
            1 <= i < n ==> #[trigger] nested_dirs(parts, rooted, n)[i] == nested_dirs(
                parts,
                rooted,
                n,
            )[i - 1] + seq!['/'] + parts[i],
    decreases n,
{
    reveal_strlit("/");
    reveal_strlit("");
    assert("/"@ =~= seq!['/']);
    assert(""@ =~= seq![]);
    if n > 0 {
        law_directories_are_nested(parts, rooted, n - 1);
        let head = nested_dirs(parts, rooted, n - 1);
        let all = nested_dirs(parts, rooted, n);
        assert forall|i: int| 1 <= i < n implies #[trigger] all[i] == all[i - 1] + seq!['/']
            + parts[i] by {
            if i < n - 1 {
                assert(all[i] == head[i] && all[i - 1] == head[i - 1]);
            } else {
                assert(all[i - 1] == head.last());
            }
        }
    }
}

/// Only a failure to verify the pairing, or to find it valid, refuses it; a failure to connect or to
/// open the tunnel says nothing of it.
pub proof fn law_what_refuses_a_pairing(f: AttemptFailure)
    ensures
        f is PairVerify || f is Validate ==> pairing_refused(f),
        f is TunnelConnect ==> !pairing_refused(f),
        pairing_refused(f) ==> f is PairVerify || f is Validate,
{
}

} // verus!
