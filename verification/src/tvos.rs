//! Pairing with an Apple TV and opening tunnels to it.
use crate::device::{
    cache_key, cache_path_result, either, either_endpoint, endpoint_text, is_blank, Device,
    Endpoint, IpModel,
};
use crate::discovery::{DeviceType, DiscoveredDevice, REMOTEPAIRING_SERVICE};
use crate::error::PlumeError;
use crate::outside::{base64_of, base64_text};
use crate::pairing::{PairingFailure, PairingStage};
use crate::plist_model::{group_plist_models, list_model};
use crate::plist_value::{PlistDictionary, PlistModel, PlistValue};
use crate::text::{eq_ignore_case, join2, join4, opt_text, same_ignoring_case, same_text};
use vstd::prelude::*;

verus! {

broadcast use group_plist_models;

// ---------------------------------------------------------------------------
// Messages
// ---------------------------------------------------------------------------

/// The version of the pairing protocol.
pub const TVOS_RP_PAIRING_WIRE_PROTOCOL_VERSION: i64 = 26;

/// A dictionary with one entry.
pub open spec fn single(key: Seq<char>, value: PlistModel) -> PlistModel {
    PlistModel::Dict(seq![(key, value)])
}

fn single_entry(key: &str, value: PlistValue) -> (r: PlistValue)
    ensures
        r@ == single(key@, value@),
{
    let d: PlistDictionary = PlistDictionary { entries: vec![(key.to_string(), value)] };
    proof {
        assert(d@ =~= seq![(key@, value@)]);
    }
    PlistValue::Dict(d)
}

/// The first message of a pairing.
pub open spec fn handshake_message(correlation_identifier: Seq<char>) -> PlistModel {
    let handshake = PlistModel::Dict(
        seq![
            ("hostOptions"@, single("attemptPairVerify"@, PlistModel::Boolean(false))),
            (
                "correlationIdentifier"@,
                single("value"@, PlistModel::Text(correlation_identifier)),
            ),
            ("wireProtocolVersion"@, PlistModel::Integer(26)),
        ],
    );
    single("request"@, single("_0"@, single("handshake"@, single("_0"@, handshake))))
}

/// The first message of a pairing.
pub fn tvos_pairing_handshake_request(correlation_identifier: &str) -> (r: PlistValue)
    ensures
        r@ == handshake_message(correlation_identifier@),
{
    let entries: Vec<(String, PlistValue)> = vec![
        (
            "hostOptions".to_string(),
            single_entry("attemptPairVerify", PlistValue::Boolean(false)),
        ),
        (
            "correlationIdentifier".to_string(),
            single_entry("value", PlistValue::Text(correlation_identifier.to_string())),
        ),
        (
            "wireProtocolVersion".to_string(),
            PlistValue::Signed(TVOS_RP_PAIRING_WIRE_PROTOCOL_VERSION),
        ),
    ];
    let handshake: PlistDictionary = PlistDictionary { entries };
    proof {
        assert(handshake@ =~= seq![
            ("hostOptions"@, single("attemptPairVerify"@, PlistModel::Boolean(false))),
            (
                "correlationIdentifier"@,
                single("value"@, PlistModel::Text(correlation_identifier@)),
            ),
            ("wireProtocolVersion"@, PlistModel::Integer(26)),
        ]);
    }
    single_entry(
        "request",
        single_entry(
            "_0",
            single_entry("handshake", single_entry("_0", PlistValue::Dict(handshake))),
        ),
    )
}

/// The value found by following keys through nested dictionaries.
pub open spec fn at_path(value: Option<PlistModel>, path: Seq<Seq<char>>) -> Option<PlistModel>
    decreases path.len(),
{
    if path.len() == 0 {
        value
    } else {
        match value {
            Some(v) => at_path(v.field(path[0]), path.drop_first()),
            None => None,
        }
    }
}

/// The value found by following keys through nested dictionaries.
fn follow<'a>(value: &'a PlistValue, path: &Vec<&str>) -> (r: Option<&'a PlistValue>)
    ensures
        (match r {
            Some(v) => Some(v@),
            None => None,
        }) == at_path(Some(value@), path@.map_values(|s: &str| s@)),
{
    let ghost keys = path@.map_values(|s: &str| s@);
    let mut current: Option<&'a PlistValue> = Some(value);
    let mut i: usize = 0;
    proof {
        assert(keys.skip(0) =~= keys);
    }
    while i < path.len()
        invariant
            i <= path@.len(),
            keys == path@.map_values(|s: &str| s@),
            at_path(Some(value@), keys) == at_path(
                (match current {
                    Some(v) => Some(v@),
                    None => None,
                }),
                keys.skip(i as int),
            ),
        decreases path@.len() - i,
    {
        proof {
            assert(keys.skip(i as int)[0] == path@[i as int]@);
            assert(keys.skip(i as int).drop_first() =~= keys.skip(i + 1));
        }
        match current {
            Some(v) => {
                current = v.field(path[i]);
            },
            None => {
                proof {
                    lemma_nothing_below_nothing(keys.skip(i as int));
                }
                return None;
            },
        }
        i += 1;
    }
    proof {
        assert(keys.skip(i as int).len() == 0);
    }
    current
}

proof fn lemma_nothing_below_nothing(path: Seq<Seq<char>>)
    ensures
        at_path(None, path) is None,
{
}

/// The keys that lead to the flag for manual pairing in the answer to the first message.
pub open spec fn pair_setup_path() -> Seq<Seq<char>> {
    seq!["response"@, "_1"@, "handshake"@, "_0"@, "deviceOptions"@, "allowsPairSetup"@]
}

/// Whether the answer to the first message offers manual pairing.
pub fn tvos_pairing_handshake_allows_pair_setup(response: &PlistValue) -> (r: bool)
    ensures
        r == (at_path(Some(response@), pair_setup_path()) == Some(PlistModel::Boolean(true))),
{
    let path: Vec<&str> = vec![
        "response",
        "_1",
        "handshake",
        "_0",
        "deviceOptions",
        "allowsPairSetup",
    ];
    proof {
        assert(path@.map_values(|s: &str| s@) =~= pair_setup_path());
    }
    match follow(response, &path) {
        Some(PlistValue::Boolean(b)) => *b,
        _ => false,
    }
}

/// The decision on the answer to the first message.
pub fn begin_tvos_pairing(response: &PlistValue) -> (r: Result<(), PlumeError>)
    ensures
        match r {
            Ok(_) => at_path(Some(response@), pair_setup_path()) == Some(PlistModel::Boolean(true)),
            Err(PlumeError::Other(m)) => at_path(Some(response@), pair_setup_path()) != Some(
                PlistModel::Boolean(true),
            ) && m@ == "Apple TV did not advertise support for manual pairing"@,
            Err(_) => false,
        },
{
    if tvos_pairing_handshake_allows_pair_setup(response) {
        Ok(())
    } else {
        Err(
            PlumeError::Other(
                "Apple TV did not advertise support for manual pairing".to_string(),
            ),
        )
    }
}

/// The message that asks for a tunnel listener.
pub open spec fn listener_message(encryption_key: Seq<u8>, process_id: u32) -> PlistModel {
    let peer = PlistModel::Dict(
        seq![
            ("owningPID"@, PlistModel::Integer(process_id as int)),
            ("owningProcessName"@, PlistModel::Text("CoreDeviceService"@)),
        ],
    );
    let listener = PlistModel::Dict(
        seq![
            ("key"@, PlistModel::Text(base64_text(encryption_key))),
            ("peerConnectionsInfo"@, PlistModel::Array(seq![peer])),
            ("transportProtocolType"@, PlistModel::Text("tcp"@)),
        ],
    );
    single("request"@, single("_0"@, single("createListener"@, listener)))
}

/// The message that asks for a tunnel listener, from the process with the given number.
pub fn tvos_create_listener_request(encryption_key: &[u8], process_id: u32) -> (r: PlistValue)
    ensures
        r@ == listener_message(encryption_key@, process_id),
{
    let peer: PlistDictionary = PlistDictionary {
        entries: vec![
            ("owningPID".to_string(), PlistValue::Signed(process_id as i64)),
            ("owningProcessName".to_string(), PlistValue::Text("CoreDeviceService".to_string())),
        ],
    };
    proof {
        assert(peer@ =~= seq![
            ("owningPID"@, PlistModel::Integer(process_id as int)),
            ("owningProcessName"@, PlistModel::Text("CoreDeviceService"@)),
        ]);
    }
    let ghost peer_model = peer@;
    let peers: Vec<PlistValue> = vec![PlistValue::Dict(peer)];
    proof {
        assert(list_model(peers@) =~= seq![PlistModel::Dict(peer_model)]);
    }
    let listener: PlistDictionary = PlistDictionary {
        entries: vec![
            ("key".to_string(), PlistValue::Text(base64_of(encryption_key))),
            ("peerConnectionsInfo".to_string(), PlistValue::Array(peers)),
            ("transportProtocolType".to_string(), PlistValue::Text("tcp".to_string())),
        ],
    };
    proof {
        assert(listener@ =~= seq![
            ("key"@, PlistModel::Text(base64_text(encryption_key@))),
            ("peerConnectionsInfo"@, PlistModel::Array(seq![PlistModel::Dict(peer_model)])),
            ("transportProtocolType"@, PlistModel::Text("tcp"@)),
        ]);
    }
    single_entry(
        "request",
        single_entry("_0", single_entry("createListener", PlistValue::Dict(listener))),
    )
}

/// The port in the answer to the request for a tunnel listener.
pub fn tvos_listener_port(response: &PlistValue) -> (r: Result<u16, PlumeError>)
    ensures
        match r {
            Ok(port) => at_path(Some(response@), seq!["createListener"@, "port"@]) == Some(
                PlistModel::Integer(port as int),
            ),
            Err(PlumeError::Other(m)) => m@ == "missing port in createListener response"@ && !(
            at_path(Some(response@), seq!["createListener"@, "port"@]) matches Some(
                PlistModel::Integer(n),
            ) && 0 <= n <= u16::MAX),
            Err(_) => false,
        },
{
    let path: Vec<&str> = vec!["createListener", "port"];
    proof {
        assert(path@.map_values(|s: &str| s@) =~= seq!["createListener"@, "port"@]);
    }
    if let Some(v) = follow(response, &path) {
        if let Some(n) = v.as_unsigned() {
            if n <= 65535 {
                return Ok(n as u16);
            }
        }
    }
    Err(PlumeError::Other("missing port in createListener response".to_string()))
}

// ---------------------------------------------------------------------------
// Choosing how to pair
// ---------------------------------------------------------------------------

#[derive(Debug, Clone, Copy, PartialEq, Eq, Structural)]
pub enum PairingAction {
    FirstPairing,
    Reconnect,
}

/// What is said where there is neither a record nor the service for manual pairing.
pub open spec fn not_advertising() -> Seq<char> {
    "Apple TV is not advertising its manual-pairing service; open Settings > Remotes and Devices > Remote App and Devices and wait for \"Waiting to Pair...\", then scan again"@
}

/// What is said where there is a record but no service at all.
pub open spec fn stale_record() -> Seq<char> {
    "Apple TV pairing record is stale and no pairing service is currently advertised"@
}

/// How to pair: with the record where there is one, else anew.
pub fn pairing_action(
    has_cached_pairing: bool,
    has_pairing_service: bool,
    has_reconnect_service: bool,
) -> (r: Result<PairingAction, String>)
    ensures
        match r {
            Ok(PairingAction::Reconnect) => has_cached_pairing && (has_reconnect_service
                || has_pairing_service),
            Ok(PairingAction::FirstPairing) => !has_cached_pairing && has_pairing_service,
            Err(m) => !has_pairing_service && (has_cached_pairing ==> !has_reconnect_service) && m@
                == if has_cached_pairing {
                stale_record()
            } else {
                not_advertising()
            },
        },
{
    if has_cached_pairing && (has_reconnect_service || has_pairing_service) {
        Ok(PairingAction::Reconnect)
    } else if !has_cached_pairing && has_pairing_service {
        Ok(PairingAction::FirstPairing)
    } else if has_cached_pairing {
        Err(
            "Apple TV pairing record is stale and no pairing service is currently advertised".to_string(),
        )
    } else {
        Err(
            "Apple TV is not advertising its manual-pairing service; open Settings > Remotes and Devices > Remote App and Devices and wait for \"Waiting to Pair...\", then scan again".to_string(),
        )
    }
}

/// What is said of a failed pairing.
pub open spec fn failure_text(failure: PairingFailure) -> Seq<char> {
    match failure {
        PairingFailure::Cancelled => "Apple TV pairing was cancelled"@,
        PairingFailure::InvalidPin => "Apple TV pairing PIN must contain exactly six digits"@,
        PairingFailure::WrongPin => "Apple TV rejected the pairing PIN"@,
        PairingFailure::StaleRecord =>
            "This Apple TV pairing record is stale; open the Apple TV pairing screen and try again"@,
        PairingFailure::ServiceDisappeared =>
            "Apple TV pairing service disappeared; scan again while the pairing screen is open"@,
        PairingFailure::Protocol(message) => "RPPairing handshake failed: "@ + message@,
    }
}

/// `e` is the error with the given message.
pub open spec fn says(e: PlumeError, message: Seq<char>) -> bool {
    e matches PlumeError::Other(m) && m@ == message
}

fn other(message: &str) -> (r: PlumeError)
    ensures
        says(r, message@),
{
    PlumeError::Other(message.to_string())
}

/// The error that stands for a failed pairing.
pub fn pairing_failure_to_error(failure: PairingFailure) -> (r: PlumeError)
    ensures
        says(r, failure_text(failure)),
{
    match failure {
        PairingFailure::Cancelled => other("Apple TV pairing was cancelled"),
        PairingFailure::InvalidPin => other("Apple TV pairing PIN must contain exactly six digits"),
        PairingFailure::WrongPin => other("Apple TV rejected the pairing PIN"),
        PairingFailure::StaleRecord => other(
            "This Apple TV pairing record is stale; open the Apple TV pairing screen and try again",
        ),
        PairingFailure::ServiceDisappeared => other(
            "Apple TV pairing service disappeared; scan again while the pairing screen is open",
        ),
        PairingFailure::Protocol(message) => other(
            join2("RPPairing handshake failed: ", message.as_str()).as_str(),
        ),
    }
}

// ---------------------------------------------------------------------------
// Pairing
// ---------------------------------------------------------------------------

/// What a pairing waits for.
#[derive(Debug, Clone, Copy, PartialEq, Eq, Structural)]
pub enum TvosPhase {
    ReadingRecord,
    RemovingUnreadable,
    ImportingFirst,
    Verifying,
    WritingVerified,
    RemovingStale,
    ImportingAfterStale,
    Connecting,
    NamingHost,
    Pairing,
    WritingPaired,
    Refreshing,
    Finished,
}

/// What is to be done next.
#[derive(Debug)]
pub enum TvosAction {
    /// Read the record at the path of this pairing, if there is one.
    ReadRecord,
    /// Remove the record; whether that succeeds does not matter.
    RemoveRecord,
    /// Try the records of the system at this address; the first that verifies is written.
    ImportExternal(Option<Endpoint>),
    /// Connect and verify with the record that was read.
    Verify(Endpoint),
    /// Connect for a new pairing.
    Connect(Endpoint),
    /// Find out the name of this machine.
    NameHost,
    /// Pair anew, with a PIN, under this name of the machine.
    PairWithPin(String),
    /// Write the record.
    WriteRecord,
    /// Look for the service for reconnecting.
    RefreshAddress,
    Finish(Result<(), PlumeError>),
}

/// What reading the record gave.
#[derive(Debug, Clone, Copy, PartialEq, Eq, Structural)]
pub enum RecordRead {
    Missing,
    Unreadable,
    Read,
}

/// What verifying with the record gave.
#[derive(Debug)]
pub enum Verification {
    ConnectFailed(String),
    Verified,
    /// The record was refused; it may still be there.
    Refused { record_exists: bool },
}

/// One pairing with an Apple TV.
#[derive(Debug)]
pub struct TvosPairing {
    pub pairing_address: Option<Endpoint>,
    pub reconnect_address: Option<Endpoint>,
    pub cache_path: String,
    pub phase: TvosPhase,
}

/// What is said where a new pairing needs the service for manual pairing.
pub open spec fn manual_service_needed() -> Seq<char> {
    "Apple TV pairing requires its manual-pairing service. On the Apple TV, open Settings > Remotes and Devices > Remote App and Devices and wait for \"Waiting to Pair...\", then scan again."@
}

impl TvosPhase {
    /// How far a pairing has come. Every answer brings it further, so that it ends.
    pub open spec fn rank(self) -> int {
        match self {
            TvosPhase::ReadingRecord => 0,
            TvosPhase::RemovingUnreadable => 1,
            TvosPhase::ImportingFirst => 2,
            TvosPhase::Verifying => 3,
            TvosPhase::RemovingStale => 4,
            TvosPhase::ImportingAfterStale => 5,
            TvosPhase::Connecting => 6,
            TvosPhase::NamingHost => 7,
            TvosPhase::Pairing => 8,
            TvosPhase::WritingVerified | TvosPhase::WritingPaired => 9,
            TvosPhase::Refreshing => 10,
            TvosPhase::Finished => 11,
        }
    }
}

impl TvosPairing {
    /// The action is the one whose outcome the pairing waits for.
    pub open spec fn asks_for(self, r: TvosAction) -> bool {
        match self.phase {
            TvosPhase::ReadingRecord => r is ReadRecord,
            TvosPhase::RemovingUnreadable | TvosPhase::RemovingStale => r is RemoveRecord,
            TvosPhase::ImportingFirst | TvosPhase::ImportingAfterStale => r is ImportExternal,
            TvosPhase::Verifying => r is Verify,
            TvosPhase::WritingVerified | TvosPhase::WritingPaired => r is WriteRecord,
            TvosPhase::Connecting => r is Connect,
            TvosPhase::NamingHost => r is NameHost,
            TvosPhase::Pairing => r is PairWithPin,
            TvosPhase::Refreshing => r is RefreshAddress,
            TvosPhase::Finished => r is Finish,
        }
    }

    /// The pairing in another phase.
    pub open spec fn at(self, phase: TvosPhase) -> TvosPairing {
        TvosPairing { phase, ..self }
    }

    /// The step that ends the pairing with an error.
    pub open spec fn fails(self, after: TvosPairing, r: TvosAction, message: Seq<char>) -> bool {
        after == self.at(TvosPhase::Finished) && (r matches TvosAction::Finish(Err(e)) && says(
            e,
            message,
        ))
    }

    /// The step to a new pairing.
    pub open spec fn goes_manual(self, after: TvosPairing, r: TvosAction) -> bool {
        match self.pairing_address {
            Some(e) => after == self.at(TvosPhase::Connecting) && r == TvosAction::Connect(e),
            None => self.fails(after, r, manual_service_needed()),
        }
    }

    /// The step that follows once it is known whether there is a record.
    pub open spec fn decides(self, cached: bool, after: TvosPairing, r: TvosAction) -> bool {
        if cached && (self.reconnect_address is Some || self.pairing_address is Some) {
            after == self.at(TvosPhase::Verifying) && r == TvosAction::Verify(
                either(self.reconnect_address, self.pairing_address)->0,
            )
        } else if cached {
            self.fails(after, r, stale_record())
        } else if self.pairing_address is Some {
            self.goes_manual(after, r)
        } else {
            self.fails(after, r, not_advertising())
        }
    }

    /// Prepares the pairing of a device.
    pub fn new(device: &Device, cache_dir: &str) -> (r: Result<TvosPairing, PlumeError>)
        ensures
            match r {
                Ok(p) => p.pairing_address == device.pairing_address && p.reconnect_address
                    == device.reconnect_address && p.phase == TvosPhase::ReadingRecord
                    && cache_path_result(
                    Ok(p.cache_path),
                    cache_key(opt_text(device.pairing_identity), device.udid@),
                    cache_dir@,
                ),
                Err(e) => cache_path_result(
                    Err(e),
                    cache_key(opt_text(device.pairing_identity), device.udid@),
                    cache_dir@,
                ),
            },
    {
        match device.pairing_cache_path(cache_dir) {
            Ok(cache_path) => Ok(
                TvosPairing {
                    pairing_address: device.pairing_address.clone(),
                    reconnect_address: device.reconnect_address.clone(),
                    cache_path,
                    phase: TvosPhase::ReadingRecord,
                },
            ),
            Err(e) => Err(e),
        }
    }

    /// The first step.
    pub fn start(&self) -> (r: TvosAction)
        requires
            self.phase == TvosPhase::ReadingRecord,
        ensures
            r == TvosAction::ReadRecord,
    {
        TvosAction::ReadRecord
    }

    fn fail(&mut self, message: &str) -> (r: TvosAction)
        ensures
            old(self).fails(*final(self), r, message@),
    {
        self.phase = TvosPhase::Finished;
        TvosAction::Finish(Err(other(message)))
    }

    fn manual(&mut self) -> (r: TvosAction)
        ensures
            old(self).goes_manual(*final(self), r),
    {
        match &self.pairing_address {
            Some(e) => {
                let e: Endpoint = e.clone();
                self.phase = TvosPhase::Connecting;
                TvosAction::Connect(e)
            },
            None => self.fail(
                "Apple TV pairing requires its manual-pairing service. On the Apple TV, open Settings > Remotes and Devices > Remote App and Devices and wait for \"Waiting to Pair...\", then scan again.",
            ),
        }
    }

    fn decide(&mut self, cached: bool) -> (r: TvosAction)
        ensures
            old(self).decides(cached, *final(self), r),
    {
        match pairing_action(
            cached,
            self.pairing_address.is_some(),
            self.reconnect_address.is_some(),
        ) {
            Err(message) => self.fail(message.as_str()),
            Ok(PairingAction::FirstPairing) => self.manual(),
            Ok(PairingAction::Reconnect) => {
                match either_endpoint(&self.reconnect_address, &self.pairing_address) {
                    Some(e) => {
                        self.phase = TvosPhase::Verifying;
                        TvosAction::Verify(e)
                    },
                    None => self.manual(),
                }
            },
        }
    }

    /// The record was read. One that cannot be read is removed.
    pub fn record_read(&mut self, outcome: RecordRead) -> (r: TvosAction)
        requires
            old(self).phase == TvosPhase::ReadingRecord,
        ensures
            final(self).phase.rank() > old(self).phase.rank(),
            final(self).asks_for(r),
            (r matches TvosAction::Finish(Ok(_))) ==> old(self).phase == TvosPhase::Refreshing,
            match outcome {
                RecordRead::Read => old(self).decides(true, *final(self), r),
                RecordRead::Unreadable => r == TvosAction::RemoveRecord && *final(self) == old(
                    self,
                ).at(TvosPhase::RemovingUnreadable),
                RecordRead::Missing => *final(self) == old(self).at(TvosPhase::ImportingFirst) && r
                    == TvosAction::ImportExternal(
                    either(old(self).reconnect_address, old(self).pairing_address),
                ),
            },
    {
        match outcome {
            RecordRead::Read => self.decide(true),
            RecordRead::Unreadable => {
                self.phase = TvosPhase::RemovingUnreadable;
                TvosAction::RemoveRecord
            },
            RecordRead::Missing => {
                self.phase = TvosPhase::ImportingFirst;
                TvosAction::ImportExternal(
                    either_endpoint(&self.reconnect_address, &self.pairing_address),
                )
            },
        }
    }

    /// The record was removed: records of the system are tried.
    pub fn record_removed(&mut self) -> (r: TvosAction)
        requires
            old(self).phase == TvosPhase::RemovingUnreadable || old(self).phase
                == TvosPhase::RemovingStale,
        ensures
            final(self).phase.rank() > old(self).phase.rank(),
            final(self).asks_for(r),
            (r matches TvosAction::Finish(Ok(_))) ==> old(self).phase == TvosPhase::Refreshing,
            r == TvosAction::ImportExternal(
                either(old(self).reconnect_address, old(self).pairing_address),
            ),
            *final(self) == if old(self).phase == TvosPhase::RemovingUnreadable {
                old(self).at(TvosPhase::ImportingFirst)
            } else {
                old(self).at(TvosPhase::ImportingAfterStale)
            },
    {
        if self.phase == TvosPhase::RemovingUnreadable {
            self.phase = TvosPhase::ImportingFirst;
        } else {
            self.phase = TvosPhase::ImportingAfterStale;
        }
        TvosAction::ImportExternal(either_endpoint(&self.reconnect_address, &self.pairing_address))
    }

    /// Records of the system were tried: whether one was taken over.
    pub fn imported(&mut self, outcome: Result<bool, PlumeError>) -> (r: TvosAction)
        requires
            old(self).phase == TvosPhase::ImportingFirst || old(self).phase
                == TvosPhase::ImportingAfterStale,
        ensures
            final(self).phase.rank() > old(self).phase.rank(),
            final(self).asks_for(r),
            (r matches TvosAction::Finish(Ok(_))) ==> old(self).phase == TvosPhase::Refreshing,
            match outcome {
                Err(e) => r == TvosAction::Finish(Err(e)) && *final(self) == old(self).at(
                    TvosPhase::Finished,
                ),
                Ok(true) => r == TvosAction::RefreshAddress && *final(self) == old(self).at(
                    TvosPhase::Refreshing,
                ),
                Ok(false) => if old(self).phase == TvosPhase::ImportingFirst {
                    old(self).decides(false, *final(self), r)
                } else {
                    old(self).goes_manual(*final(self), r)
                },
            },
    {
        match outcome {
            Err(e) => {
                self.phase = TvosPhase::Finished;
                TvosAction::Finish(Err(e))
            },
            Ok(true) => {
                self.phase = TvosPhase::Refreshing;
                TvosAction::RefreshAddress
            },
            Ok(false) => if self.phase == TvosPhase::ImportingFirst {
                self.decide(false)
            } else {
                self.manual()
            },
        }
    }

    /// The record was tried at `address`.
    pub fn verified(&mut self, address: &Endpoint, outcome: Verification) -> (r: TvosAction)
        requires
            old(self).phase == TvosPhase::Verifying,
        ensures
            final(self).phase.rank() > old(self).phase.rank(),
            final(self).asks_for(r),
            (r matches TvosAction::Finish(Ok(_))) ==> old(self).phase == TvosPhase::Refreshing,
            outcome is Refused ==> !(r is Finish) && !(r is WriteRecord),
            match outcome {
                Verification::ConnectFailed(e) => old(self).fails(
                    *final(self),
                    r,
                    "Failed to reconnect to Apple TV at "@ + endpoint_text(*address) + ": "@ + e@
                        + "; scan again if the device changed its advertised address"@,
                ),
                Verification::Verified => r == TvosAction::WriteRecord && *final(self) == old(
                    self,
                ).at(TvosPhase::WritingVerified),
                Verification::Refused { record_exists: true } => r == TvosAction::RemoveRecord
                    && *final(self) == old(self).at(TvosPhase::RemovingStale),
                Verification::Refused { record_exists: false } => r == TvosAction::ImportExternal(
                    either(old(self).reconnect_address, old(self).pairing_address),
                ) && *final(self) == old(self).at(TvosPhase::ImportingAfterStale),
            },
    {
        match outcome {
            Verification::ConnectFailed(e) => {
                let text: String = join2(
                    join4(
                        "Failed to reconnect to Apple TV at ",
                        address.to_text().as_str(),
                        ": ",
                        e.as_str(),
                    ).as_str(),
                    "; scan again if the device changed its advertised address",
                );
                self.fail(text.as_str())
            },
            Verification::Verified => {
                self.phase = TvosPhase::WritingVerified;
                TvosAction::WriteRecord
            },
            Verification::Refused { record_exists } => if record_exists {
                self.phase = TvosPhase::RemovingStale;
                TvosAction::RemoveRecord
            } else {
                self.phase = TvosPhase::ImportingAfterStale;
                TvosAction::ImportExternal(
                    either_endpoint(&self.reconnect_address, &self.pairing_address),
                )
            },
        }
    }

    /// The connection for a new pairing to `address` was tried.
    pub fn connected(&mut self, address: &Endpoint, outcome: Result<(), String>) -> (r: TvosAction)
        requires
            old(self).phase == TvosPhase::Connecting,
        ensures
            final(self).phase.rank() > old(self).phase.rank(),
            final(self).asks_for(r),
            (r matches TvosAction::Finish(Ok(_))) ==> old(self).phase == TvosPhase::Refreshing,
            match outcome {
                Ok(_) => r == TvosAction::NameHost && *final(self) == old(self).at(
                    TvosPhase::NamingHost,
                ),
                Err(e) => old(self).fails(
                    *final(self),
                    r,
                    "Failed to connect to Apple TV at "@ + endpoint_text(*address) + ": "@ + e@
                        + ". The manual-pairing port changes each time the Apple TV re-advertises, so a stale scan result will not connect - scan again immediately before pairing."@,
                ),
            },
    {
        match outcome {
            Ok(_) => {
                self.phase = TvosPhase::NamingHost;
                TvosAction::NameHost
            },
            Err(e) => {
                let text: String = join2(
                    join4(
                        "Failed to connect to Apple TV at ",
                        address.to_text().as_str(),
                        ": ",
                        e.as_str(),
                    ).as_str(),
                    ". The manual-pairing port changes each time the Apple TV re-advertises, so a stale scan result will not connect - scan again immediately before pairing.",
                );
                self.fail(text.as_str())
            },
        }
    }

    /// The name of this machine was looked up.
    pub fn host_named(&mut self, hostname: Option<String>) -> (r: TvosAction)
        requires
            old(self).phase == TvosPhase::NamingHost,
        ensures
            final(self).phase.rank() > old(self).phase.rank(),
            final(self).asks_for(r),
            (r matches TvosAction::Finish(Ok(_))) ==> old(self).phase == TvosPhase::Refreshing,
            match hostname {
                Some(name) => r == TvosAction::PairWithPin(name) && *final(self) == old(self).at(
                    TvosPhase::Pairing,
                ),
                None => old(self).fails(
                    *final(self),
                    r,
                    "Could not determine the host name for Apple TV pairing"@,
                ),
            },
    {
        match hostname {
            Some(name) => {
                self.phase = TvosPhase::Pairing;
                TvosAction::PairWithPin(name)
            },
            None => self.fail("Could not determine the host name for Apple TV pairing"),
        }
    }

    /// The new pairing has ended. Only one that ended in a pairing is written.
    pub fn paired(&mut self, outcome: Result<PairingStage, PlumeError>) -> (r: TvosAction)
        requires
            old(self).phase == TvosPhase::Pairing,
        ensures
            final(self).phase.rank() > old(self).phase.rank(),
            final(self).asks_for(r),
            (r matches TvosAction::Finish(Ok(_))) ==> old(self).phase == TvosPhase::Refreshing,
            r is WriteRecord ==> outcome is Ok,
            match outcome {
                Ok(PairingStage::Paired) => r == TvosAction::WriteRecord && *final(self) == old(
                    self,
                ).at(TvosPhase::WritingPaired),
                Ok(PairingStage::Reconnected) => old(self).fails(
                    *final(self),
                    r,
                    "Apple TV pairing did not complete a new pairing"@,
                ),
                Err(e) => r == TvosAction::Finish(Err(e)) && *final(self) == old(self).at(
                    TvosPhase::Finished,
                ),
            },
    {
        match outcome {
            Ok(PairingStage::Paired) => {
                self.phase = TvosPhase::WritingPaired;
                TvosAction::WriteRecord
            },
            Ok(PairingStage::Reconnected) => self.fail(
                "Apple TV pairing did not complete a new pairing",
            ),
            Err(e) => {
                self.phase = TvosPhase::Finished;
                TvosAction::Finish(Err(e))
            },
        }
    }

    /// The record was written: the service for reconnecting is looked for.
    pub fn written(&mut self, outcome: Result<(), PlumeError>) -> (r: TvosAction)
        requires
            old(self).phase == TvosPhase::WritingVerified || old(self).phase
                == TvosPhase::WritingPaired,
        ensures
            final(self).phase.rank() > old(self).phase.rank(),
            final(self).asks_for(r),
            (r matches TvosAction::Finish(Ok(_))) ==> old(self).phase == TvosPhase::Refreshing,
            match outcome {
                Ok(_) => r == TvosAction::RefreshAddress && *final(self) == old(self).at(
                    TvosPhase::Refreshing,
                ),
                Err(e) => r == TvosAction::Finish(Err(e)) && *final(self) == old(self).at(
                    TvosPhase::Finished,
                ),
            },
    {
        match outcome {
            Ok(_) => {
                self.phase = TvosPhase::Refreshing;
                TvosAction::RefreshAddress
            },
            Err(e) => {
                self.phase = TvosPhase::Finished;
                TvosAction::Finish(Err(e))
            },
        }
    }

    /// The service for reconnecting was looked for: the pairing ends as that did.
    pub fn refreshed(&mut self, outcome: Result<(), PlumeError>) -> (r: TvosAction)
        requires
            old(self).phase == TvosPhase::Refreshing,
        ensures
            final(self).phase.rank() > old(self).phase.rank(),
            final(self).asks_for(r),
            (r matches TvosAction::Finish(Ok(_))) ==> old(self).phase == TvosPhase::Refreshing,
            r == TvosAction::Finish(outcome),
            *final(self) == old(self).at(TvosPhase::Finished),
    {
        self.phase = TvosPhase::Finished;
        TvosAction::Finish(outcome)
    }
}

// ---------------------------------------------------------------------------
// Looking for the service for reconnecting
// ---------------------------------------------------------------------------

/// How well a finding fits a device: by address, by identity and by name.
pub open spec fn fit(device: Device, d: DiscoveredDevice) -> int {
    let known_ip = match either(device.pairing_address, device.reconnect_address) {
        Some(e) => Some(e.ip@),
        None => None::<IpModel>,
    };
    let same_ip = d.ip_address matches Some(ip) && known_ip == Some(ip@);
    let same_identity = device.pairing_identity matches Some(i) && i@.len() > 0 && (
    same_ignoring_case(d.hostname@, i@) || same_ignoring_case(d.name@, i@));
    let same_name = device.name@.len() > 0 && same_ignoring_case(d.name@, device.name@);
    (if same_ip {
        4int
    } else {
        0
    }) + (if same_identity {
        2int
    } else {
        0
    }) + (if same_name {
        1int
    } else {
        0
    })
}

/// A finding is the service for reconnecting of an Apple TV, with an address and a port.
pub open spec fn offers_reconnect(d: DiscoveredDevice) -> bool {
    d.device_type == DeviceType::AppleTV && d.service_type@ == REMOTEPAIRING_SERVICE@
        && d.endpoint() is Some
}

/// The index of the best of the first `n` findings: the last of those that fit best.
pub open spec fn best_fit(device: Device, found: Seq<DiscoveredDevice>, n: int) -> Option<int>
    decreases n,
{
    if n <= 0 {
        None
    } else {
        let before = best_fit(device, found, n - 1);
        let d = found[n - 1];
        if offers_reconnect(d) && fit(device, d) > 0 && (before matches Some(i) ==> fit(
            device,
            found[i],
        ) <= fit(device, d)) {
            Some(n - 1)
        } else {
            before
        }
    }
}

impl Device {
    fn fit_of(&self, d: &DiscoveredDevice) -> (r: u8)
        ensures
            r == fit(*self, *d),
    {
        let same_ip: bool = match either_endpoint(
            &self.pairing_address,
            &self.reconnect_address,
        ) {
            Some(e) => match &d.ip_address {
                Some(ip) => e.ip.same(ip),
                None => false,
            },
            None => false,
        };
        let same_identity: bool = match &self.pairing_identity {
            Some(i) => !is_blank(i.as_str()) && (eq_ignore_case(d.hostname.as_str(), i.as_str())
                || eq_ignore_case(d.name.as_str(), i.as_str())),
            None => false,
        };
        let same_name: bool = !is_blank(self.name.as_str()) && eq_ignore_case(
            d.name.as_str(),
            self.name.as_str(),
        );
        (if same_ip {
            4u8
        } else {
            0
        }) + (if same_identity {
            2u8
        } else {
            0
        }) + (if same_name {
            1u8
        } else {
            0
        })
    }

    /// Takes over the address for reconnecting from what a scan found.
    pub fn refresh_tvos_reconnect_address(&mut self, discovered: &Vec<DiscoveredDevice>) -> (r:
        Result<(), PlumeError>)
        ensures
            match best_fit(*old(self), discovered@, discovered@.len() as int) {
                Some(i) => r is Ok && *final(self) == (Device {
                    reconnect_address: discovered@[i].endpoint(),
                    ..*old(self)
                }),
                None => *final(self) == *old(self) && (r matches Err(e) && says(
                    e,
                    "Apple TV pairing succeeded, but its verified _remotepairing._tcp service was not found; scan again and retry"@,
                )),
            },
    {
        let mut best: Option<usize> = None;
        let mut best_rank: u8 = 0;
        let mut i: usize = 0;
        while i < discovered.len()
            invariant
                i <= discovered@.len(),
                match best {
                    Some(b) => b < i && best_fit(*self, discovered@, i as int) == Some(b as int)
                        && best_rank == fit(*self, discovered@[b as int]) && offers_reconnect(
                        discovered@[b as int],
                    ),
                    None => best_fit(*self, discovered@, i as int) is None && best_rank == 0,
                },
            decreases discovered@.len() - i,
        {
            let d: &DiscoveredDevice = &discovered[i];
            if d.device_type == DeviceType::AppleTV && same_text(
                d.service_type.as_str(),
                REMOTEPAIRING_SERVICE,
            ) && d.ip_address.is_some() && d.port.is_some() {
                let rank: u8 = self.fit_of(d);
                if rank > 0 && rank >= best_rank {
                    best = Some(i);
                    best_rank = rank;
                }
            }
            i += 1;
        }
        match best {
            Some(b) => {
                let d: &DiscoveredDevice = &discovered[b];
                match (&d.ip_address, d.port) {
                    (Some(ip), Some(port)) => {
                        self.reconnect_address = Some(Endpoint { ip: ip.clone(), port });
                    },
                    _ => {},
                }
                Ok(())
            },
            None => Err(
                other(
                    "Apple TV pairing succeeded, but its verified _remotepairing._tcp service was not found; scan again and retry",
                ),
            ),
        }
    }
}

/// The finding that is chosen fits at least as well as every other one.
pub proof fn law_best_fit_is_best(device: Device, found: Seq<DiscoveredDevice>, n: int, k: int)
    requires
        0 <= k < n <= found.len(),
        offers_reconnect(found[k]),
        fit(device, found[k]) > 0,
    ensures
        best_fit(device, found, n) matches Some(i) && 0 <= i < n && offers_reconnect(found[i])
            && fit(device, found[i]) >= fit(device, found[k]),
    decreases n,
{
    lemma_best_fit(device, found, n - 1);
    if k < n - 1 {
        law_best_fit_is_best(device, found, n - 1, k);
    }
}

proof fn lemma_best_fit(device: Device, found: Seq<DiscoveredDevice>, n: int)
    requires
        n <= found.len(),
    ensures
        best_fit(device, found, n) matches Some(i) ==> 0 <= i < n && offers_reconnect(found[i])
            && fit(device, found[i]) > 0,
    decreases n,
{
    if n > 0 {
        lemma_best_fit(device, found, n - 1);
    }
}

/// A record that is there is tried first, at the address for reconnecting where it is known; without a
/// record a new pairing goes to the address for pairing, and to no other.
pub proof fn law_known_record_is_tried_first(
    pairing: TvosPairing,
    cached: bool,
    after: TvosPairing,
    r: TvosAction,
)
    requires
        pairing.decides(cached, after, r),
    ensures
        r is Verify <==> cached && (pairing.reconnect_address is Some
            || pairing.pairing_address is Some),
        r is Verify && pairing.reconnect_address is Some ==> r == TvosAction::Verify(
            pairing.reconnect_address->0,
        ),
        r is Verify && pairing.reconnect_address is None ==> r == TvosAction::Verify(
            pairing.pairing_address->0,
        ),
        r is Connect <==> !cached && pairing.pairing_address is Some,
        r is Connect ==> r == TvosAction::Connect(pairing.pairing_address->0),
        !(r is Verify) && !(r is Connect) ==> r is Finish && after.phase == TvosPhase::Finished,
{
}

/// A finding fits a device exactly where it has its address, its identity or its name, and the
/// address outweighs the others.
pub proof fn law_address_outweighs_names(
    device: Device,
    a: DiscoveredDevice,
    b: DiscoveredDevice,
    known: Endpoint,
)
    requires
        either(device.pairing_address, device.reconnect_address) == Some(known),
        a.ip_address matches Some(ip) && ip@ == known.ip@,
        b.ip_address matches Some(ip) ==> ip@ != known.ip@,
    ensures
        fit(device, a) > fit(device, b),
        fit(device, a) > 0,
{
}

/// A finding that shares neither address nor identity nor name with a device does not fit it, and one
/// that shares any of them does.
pub proof fn law_what_fits_a_device(device: Device, d: DiscoveredDevice)
    ensures
        fit(device, d) > 0 <==> {
            ||| match (either(device.pairing_address, device.reconnect_address), d.ip_address) {
                (Some(e), Some(ip)) => e.ip@ == ip@,
                _ => false,
            }
            ||| device.pairing_identity matches Some(i) && i@.len() > 0 && (same_ignoring_case(
                d.hostname@,
                i@,
            ) || same_ignoring_case(d.name@, i@))
            ||| device.name@.len() > 0 && same_ignoring_case(d.name@, device.name@)
        },
{
}

/// The finding that is chosen for reconnecting is one of an Apple TV over the service for it, with an
/// address, and fits the device; none is chosen where there is none.
pub proof fn law_chosen_finding_fits(device: Device, found: Seq<DiscoveredDevice>, n: int)
    requires
        0 <= n <= found.len(),
    ensures
        best_fit(device, found, n) matches Some(i) ==> 0 <= i < n && found[i].device_type
            == DeviceType::AppleTV && found[i].service_type@ == "_remotepairing._tcp.local."@
            && found[i].ip_address is Some && found[i].port is Some && fit(device, found[i]) > 0,
        best_fit(device, found, n) is None ==> forall|k: int|
            0 <= k < n && (#[trigger] found[k]).device_type == DeviceType::AppleTV
                && found[k].service_type@ == "_remotepairing._tcp.local."@
                && found[k].ip_address is Some && found[k].port is Some ==> fit(device, found[k])
                <= 0,
    decreases n,
{
    reveal_strlit("_remotepairing._tcp.local.");
    if n > 0 {
        law_chosen_finding_fits(device, found, n - 1);
    }
}

/// Each failure of a pairing is told in words of its own.
pub proof fn law_failures_are_told_apart(a: PairingFailure, b: PairingFailure)
    requires
        failure_text(a) == failure_text(b),
        !(a is Protocol) && !(b is Protocol),
    ensures
        a == b,
{
    reveal_strlit("Apple TV pairing was cancelled");
    reveal_strlit("Apple TV pairing PIN must contain exactly six digits");
    reveal_strlit("Apple TV rejected the pairing PIN");
    reveal_strlit(
        "This Apple TV pairing record is stale; open the Apple TV pairing screen and try again",
    );
    reveal_strlit(
        "Apple TV pairing service disappeared; scan again while the pairing screen is open",
    );
    assert("Apple TV pairing was cancelled"@.len() == 30);
    assert("Apple TV pairing PIN must contain exactly six digits"@.len() == 52);
    assert("Apple TV rejected the pairing PIN"@.len() == 33);
    assert("This Apple TV pairing record is stale; open the Apple TV pairing screen and try again"@.len()
        == 85);
    assert("Apple TV pairing service disappeared; scan again while the pairing screen is open"@.len()
        == 81);
}

/// The greeting carries its identifier and the version of the protocol, and asks for no verification.
pub proof fn law_greeting_tells(c: Seq<char>)
    ensures
        at_path(
            Some(handshake_message(c)),
            seq!["request"@, "_0"@, "handshake"@, "_0"@, "correlationIdentifier"@, "value"@],
        ) == Some(PlistModel::Text(c)),
        at_path(
            Some(handshake_message(c)),
            seq!["request"@, "_0"@, "handshake"@, "_0"@, "hostOptions"@, "attemptPairVerify"@],
        ) == Some(PlistModel::Boolean(false)),
        at_path(
            Some(handshake_message(c)),
            seq!["request"@, "_0"@, "handshake"@, "_0"@, "wireProtocolVersion"@],
        ) == Some(PlistModel::Integer(26)),
{
    reveal_strlit("hostOptions");
    reveal_strlit("correlationIdentifier");
    reveal_strlit("wireProtocolVersion");
    assert("hostOptions"@.len() == 11 && "correlationIdentifier"@.len() == 21
        && "wireProtocolVersion"@.len() == 19);
    let inner = PlistModel::Dict(
        seq![
            ("hostOptions"@, single("attemptPairVerify"@, PlistModel::Boolean(false))),
            ("correlationIdentifier"@, single("value"@, PlistModel::Text(c))),
            ("wireProtocolVersion"@, PlistModel::Integer(26)),
        ],
    );
    reveal_with_fuel(crate::plist_value::key_index, 4);
    lemma_single("value"@, PlistModel::Text(c));
    lemma_single("attemptPairVerify"@, PlistModel::Boolean(false));
    lemma_nested("request"@, "_0"@, "handshake"@, "_0"@, inner);
    let p = seq!["request"@, "_0"@, "handshake"@, "_0"@];
    let a = seq!["correlationIdentifier"@, "value"@];
    let b = seq!["hostOptions"@, "attemptPairVerify"@];
    let v = seq!["wireProtocolVersion"@];
    let m = handshake_message(c);
    lemma_path_goes_on(Some(m), p, a);
    lemma_path_goes_on(Some(m), p, b);
    lemma_path_goes_on(Some(m), p, v);
    assert(p + a =~= seq!["request"@, "_0"@, "handshake"@, "_0"@, "correlationIdentifier"@, "value"@]);
    assert(p + b =~= seq!["request"@, "_0"@, "handshake"@, "_0"@, "hostOptions"@, "attemptPairVerify"@]);
    assert(p + v =~= seq!["request"@, "_0"@, "handshake"@, "_0"@, "wireProtocolVersion"@]);
    reveal_with_fuel(at_path, 3);
    assert(a.drop_first() =~= seq!["value"@]);
    assert(b.drop_first() =~= seq!["attemptPairVerify"@]);
}

proof fn lemma_single(key: Seq<char>, value: PlistModel)
    ensures
        single(key, value).field(key) == Some(value),
{
    reveal_with_fuel(crate::plist_value::key_index, 2);
}

proof fn lemma_nested(a: Seq<char>, b: Seq<char>, c: Seq<char>, d: Seq<char>, v: PlistModel)
    ensures
        at_path(Some(single(a, single(b, single(c, single(d, v))))), seq![a, b, c, d]) == Some(v),
{
    lemma_single(a, single(b, single(c, single(d, v))));
    lemma_single(b, single(c, single(d, v)));
    lemma_single(c, single(d, v));
    lemma_single(d, v);
    assert(seq![a, b, c, d].drop_first() =~= seq![b, c, d]);
    assert(seq![b, c, d].drop_first() =~= seq![c, d]);
    assert(seq![c, d].drop_first() =~= seq![d]);
    assert(seq![d].drop_first() =~= seq![]);
    reveal_with_fuel(at_path, 6);
}

proof fn lemma_path_goes_on(v: Option<PlistModel>, a: Seq<Seq<char>>, b: Seq<Seq<char>>)
    ensures
        at_path(v, a + b) == at_path(at_path(v, a), b),
    decreases a.len(),
{
    if a.len() == 0 {
        assert(a + b =~= b);
    } else {
        assert((a + b).drop_first() =~= a.drop_first() + b);
        match v {
            Some(x) => {
                lemma_path_goes_on(x.field(a[0]), a.drop_first(), b);
            },
            None => {
                reveal_with_fuel(at_path, 2);
            },
        }
    }
}

/// The request for a listener hands over the key of the session and names its process.
pub proof fn law_listener_request_tells(key: Seq<u8>, process_id: u32)
    ensures
        at_path(
            Some(listener_message(key, process_id)),
            seq!["request"@, "_0"@, "createListener"@, "key"@],
        ) == Some(PlistModel::Text(base64_text(key))),
        at_path(
            Some(listener_message(key, process_id)),
            seq!["request"@, "_0"@, "createListener"@, "transportProtocolType"@],
        ) == Some(PlistModel::Text("tcp"@)),
        at_path(
            Some(listener_message(key, process_id)),
            seq!["request"@, "_0"@, "createListener"@, "peerConnectionsInfo"@],
        ) matches Some(PlistModel::Array(peers)) && peers.len() == 1 && peers[0].field(
            "owningPID"@,
        ) == Some(PlistModel::Integer(process_id as int)),
{
    reveal_strlit("key");
    reveal_strlit("peerConnectionsInfo");
    reveal_strlit("transportProtocolType");
    assert("key"@.len() == 3 && "peerConnectionsInfo"@.len() == 19
        && "transportProtocolType"@.len() == 21);
    reveal_with_fuel(crate::plist_value::key_index, 4);
    let peer = PlistModel::Dict(
        seq![
            ("owningPID"@, PlistModel::Integer(process_id as int)),
            ("owningProcessName"@, PlistModel::Text("CoreDeviceService"@)),
        ],
    );
    let listener = PlistModel::Dict(
        seq![
            ("key"@, PlistModel::Text(base64_text(key))),
            ("peerConnectionsInfo"@, PlistModel::Array(seq![peer])),
            ("transportProtocolType"@, PlistModel::Text("tcp"@)),
        ],
    );
    let m = listener_message(key, process_id);
    lemma_single("createListener"@, listener);
    lemma_single("_0"@, single("createListener"@, listener));
    lemma_single("request"@, single("_0"@, single("createListener"@, listener)));
    let p = seq!["request"@, "_0"@, "createListener"@];
    assert(p.drop_first() =~= seq!["_0"@, "createListener"@]);
    assert(p.drop_first().drop_first() =~= seq!["createListener"@]);
    assert(p.drop_first().drop_first().drop_first() =~= seq![]);
    reveal_with_fuel(at_path, 5);
    assert(at_path(Some(m), p) == Some(listener));
    lemma_path_goes_on(Some(m), p, seq!["key"@]);
    lemma_path_goes_on(Some(m), p, seq!["transportProtocolType"@]);
    lemma_path_goes_on(Some(m), p, seq!["peerConnectionsInfo"@]);
    assert(p + seq!["key"@] =~= seq!["request"@, "_0"@, "createListener"@, "key"@]);
    assert(p + seq!["transportProtocolType"@] =~= seq![
        "request"@,
        "_0"@,
        "createListener"@,
        "transportProtocolType"@,
    ]);
    assert(p + seq!["peerConnectionsInfo"@] =~= seq![
        "request"@,
        "_0"@,
        "createListener"@,
        "peerConnectionsInfo"@,
    ]);
}

/// Of the findings that fit, the one that fits best is chosen, and the last of those that fit equally
/// well.
pub proof fn law_best_finding_is_chosen(
    device: Device,
    found: Seq<DiscoveredDevice>,
    n: int,
    i: int,
    k: int,
)
    requires
        0 <= n <= found.len(),
        best_fit(device, found, n) == Some(i),
        0 <= k < n,
        found[k].device_type == DeviceType::AppleTV,
        found[k].service_type@ == "_remotepairing._tcp.local."@,
        found[k].ip_address is Some && found[k].port is Some,
    ensures
        fit(device, found[k]) <= fit(device, found[i]),
        k > i ==> fit(device, found[k]) < fit(device, found[i]),
    decreases n,
{
    if n > 0 {
        law_chosen_finding_fits(device, found, n - 1);
        let before = best_fit(device, found, n - 1);
        if before is Some && k < n - 1 {
            law_best_finding_is_chosen(device, found, n - 1, before->0, k);
        }
    }
}

/// Whether pairing is allowed is read from the options of the device in the answer to the greeting; an
/// answer of another form says nothing of it.
pub proof fn law_answer_allows_pairing(allowed: PlistModel)
    ensures
        at_path(
            Some(
                single(
                    "response"@,
                    single(
                        "_1"@,
                        single(
                            "handshake"@,
                            single("_0"@, single("deviceOptions"@, single("allowsPairSetup"@, allowed))),
                        ),
                    ),
                ),
            ),
            pair_setup_path(),
        ) == Some(allowed),
        at_path(None, pair_setup_path()) is None,
        at_path(Some(PlistModel::Boolean(true)), pair_setup_path()) is None,
{
    let inner = single("deviceOptions"@, single("allowsPairSetup"@, allowed));
    let p = seq!["response"@, "_1"@, "handshake"@, "_0"@];
    let q = seq!["deviceOptions"@, "allowsPairSetup"@];
    lemma_nested("response"@, "_1"@, "handshake"@, "_0"@, inner);
    lemma_single("deviceOptions"@, single("allowsPairSetup"@, allowed));
    lemma_single("allowsPairSetup"@, allowed);
    assert(pair_setup_path() =~= p + q);
    lemma_path_goes_on(
        Some(single("response"@, single("_1"@, single("handshake"@, single("_0"@, inner))))),
        p,
        q,
    );
    assert(q.drop_first() =~= seq!["allowsPairSetup"@]);
    assert(q.drop_first().drop_first() =~= seq![]);
    reveal_with_fuel(at_path, 3);
}

} // verus!
