//! The order of verifying and pairing with a device.
use crate::text::{chars_of, is_digit};
use vstd::prelude::*;

verus! {

#[derive(Debug, Clone, PartialEq, Eq)]
pub enum PairingFailure {
    Cancelled,
    InvalidPin,
    WrongPin,
    StaleRecord,
    ServiceDisappeared,
    Protocol(String),
}

#[derive(Debug, Clone, Copy, PartialEq, Eq, Structural)]
pub enum PairingStage {
    Reconnected,
    Paired,
}

/// What the flow waits for.
#[derive(Debug, Clone, Copy, PartialEq, Eq, Structural)]
pub enum PairingPhase {
    Start,
    Verifying,
    AwaitingPin,
    Pairing,
    Finished,
}

/// What is to be done next.
#[derive(Debug)]
pub enum PairingRequest {
    /// Verify the record that is kept.
    Verify,
    /// Ask for the PIN that the device shows.
    AskPin,
    /// Pair with this PIN.
    Pair(String),
    Finish(Result<PairingStage, PairingFailure>),
}

/// Six decimal digits.
pub open spec fn six_digits(pin: Seq<char>) -> bool {
    pin.len() == 6 && forall|i: int| 0 <= i < 6 ==> is_digit(#[trigger] pin[i])
}

/// Whether a PIN is six decimal digits.
pub fn is_six_digits(pin: &str) -> (r: bool)
    ensures
        r == six_digits(pin@),
{
    let chars: Vec<char> = chars_of(pin);
    if chars.len() != 6 {
        return false;
    }
    let mut i: usize = 0;
    while i < 6
        invariant
            chars@ == pin@,
            chars@.len() == 6,
            i <= 6,
            forall|j: int| 0 <= j < i ==> is_digit(#[trigger] pin@[j]),
        decreases 6 - i,
    {
        let c: char = chars[i];
        if !('0' <= c && c <= '9') {
            proof {
                assert(!is_digit(pin@[i as int]));
            }
            return false;
        }
        i += 1;
    }
    true
}

/// One run of pairing with a device: first the record that is kept, then a new pairing with a PIN.
#[derive(Debug)]
pub struct PairingFlow {
    pub has_cached_record: bool,
    pub has_pairing_service: bool,
    pub has_reconnect_service: bool,
    pub phase: PairingPhase,
}

impl PairingFlow {
    pub fn new(
        has_cached_record: bool,
        has_pairing_service: bool,
        has_reconnect_service: bool,
    ) -> (r: PairingFlow)
        ensures
            r.has_cached_record == has_cached_record,
            r.has_pairing_service == has_pairing_service,
            r.has_reconnect_service == has_reconnect_service,
            r.phase == PairingPhase::Start,
    {
        PairingFlow {
            has_cached_record,
            has_pairing_service,
            has_reconnect_service,
            phase: PairingPhase::Start,
        }
    }

    /// The flow with another phase.
    pub open spec fn at(self, phase: PairingPhase) -> PairingFlow {
        PairingFlow { phase, ..self }
    }

    /// A record that is kept is verified first, where the device can be reached at all.
    pub fn start(&mut self) -> (r: PairingRequest)
        requires
            old(self).phase == PairingPhase::Start,
        ensures
            ({
                let flow = *old(self);
                if flow.has_cached_record && (flow.has_reconnect_service
                    || flow.has_pairing_service) {
                    r == PairingRequest::Verify && *final(self) == flow.at(PairingPhase::Verifying)
                } else if flow.has_pairing_service {
                    r == PairingRequest::AskPin && *final(self) == flow.at(
                        PairingPhase::AwaitingPin,
                    )
                } else {
                    r == PairingRequest::Finish(Err(PairingFailure::ServiceDisappeared))
                        && *final(self) == flow.at(PairingPhase::Finished)
                }
            }),
    {
        if self.has_cached_record && (self.has_reconnect_service || self.has_pairing_service) {
            self.phase = PairingPhase::Verifying;
            PairingRequest::Verify
        } else if self.has_pairing_service {
            self.phase = PairingPhase::AwaitingPin;
            PairingRequest::AskPin
        } else {
            self.phase = PairingPhase::Finished;
            PairingRequest::Finish(Err(PairingFailure::ServiceDisappeared))
        }
    }

    /// The outcome of verifying the record that is kept.
    pub fn verified(&mut self, ok: bool) -> (r: PairingRequest)
        requires
            old(self).phase == PairingPhase::Verifying,
        ensures
            ({
                let flow = *old(self);
                if ok {
                    r == PairingRequest::Finish(Ok(PairingStage::Reconnected)) && *final(self)
                        == flow.at(PairingPhase::Finished)
                } else if flow.has_pairing_service {
                    r == PairingRequest::AskPin && *final(self) == flow.at(
                        PairingPhase::AwaitingPin,
                    )
                } else {
                    r == PairingRequest::Finish(Err(PairingFailure::StaleRecord)) && *final(self)
                        == flow.at(PairingPhase::Finished)
                }
            }),
    {
        if ok {
            self.phase = PairingPhase::Finished;
            PairingRequest::Finish(Ok(PairingStage::Reconnected))
        } else if self.has_pairing_service {
            self.phase = PairingPhase::AwaitingPin;
            PairingRequest::AskPin
        } else {
            self.phase = PairingPhase::Finished;
            PairingRequest::Finish(Err(PairingFailure::StaleRecord))
        }
    }

    /// The PIN that was entered; an empty one means that pairing was given up.
    pub fn pin_entered(&mut self, pin: String) -> (r: PairingRequest)
        requires
            old(self).phase == PairingPhase::AwaitingPin,
        ensures
            ({
                let flow = *old(self);
                if pin@.len() == 0 {
                    r == PairingRequest::Finish(Err(PairingFailure::Cancelled)) && *final(self)
                        == flow.at(PairingPhase::Finished)
                } else if six_digits(pin@) {
                    r == PairingRequest::Pair(pin) && *final(self) == flow.at(PairingPhase::Pairing)
                } else {
                    r == PairingRequest::Finish(Err(PairingFailure::InvalidPin)) && *final(self)
                        == flow.at(PairingPhase::Finished)
                }
            }),
    {
        if chars_of(pin.as_str()).len() == 0 {
            self.phase = PairingPhase::Finished;
            PairingRequest::Finish(Err(PairingFailure::Cancelled))
        } else if is_six_digits(pin.as_str()) {
            self.phase = PairingPhase::Pairing;
            PairingRequest::Pair(pin)
        } else {
            self.phase = PairingPhase::Finished;
            PairingRequest::Finish(Err(PairingFailure::InvalidPin))
        }
    }

    /// The outcome of pairing.
    pub fn paired(&mut self, outcome: Result<(), PairingFailure>) -> (r: PairingRequest)
        requires
            old(self).phase == PairingPhase::Pairing,
        ensures
            *final(self) == old(self).at(PairingPhase::Finished),
            r == match outcome {
                Ok(_) => PairingRequest::Finish(Ok(PairingStage::Paired)),
                Err(e) => PairingRequest::Finish(Err(e)),
            },
    {
        self.phase = PairingPhase::Finished;
        match outcome {
            Ok(_) => PairingRequest::Finish(Ok(PairingStage::Paired)),
            Err(e) => PairingRequest::Finish(Err(e)),
        }
    }
}

/// What the world answers during one run.
pub ghost struct PairingWorld {
    pub verifies: bool,
    pub pin: Seq<char>,
    pub pairs: bool,
}

/// The end of one run.
pub ghost enum PairingEnd {
    Reconnected,
    Paired,
    Cancelled,
    InvalidPin,
    StaleRecord,
    ServiceDisappeared,
    /// The failure that the device reported.
    Refused,
}

/// The end of a run of the flow against a world.
pub open spec fn pairing_end(
    cached: bool,
    pairing_service: bool,
    reconnect_service: bool,
    world: PairingWorld,
) -> PairingEnd {
    let tried = cached && (reconnect_service || pairing_service);
    if tried && world.verifies {
        PairingEnd::Reconnected
    } else if !pairing_service {
        if tried {
            PairingEnd::StaleRecord
        } else {
            PairingEnd::ServiceDisappeared
        }
    } else if world.pin.len() == 0 {
        PairingEnd::Cancelled
    } else if !six_digits(world.pin) {
        PairingEnd::InvalidPin
    } else if world.pairs {
        PairingEnd::Paired
    } else {
        PairingEnd::Refused
    }
}

/// A run ends in a new pairing only with a six-digit PIN and while the pairing service is there, and
/// reconnects only with a record that is kept and verifies.
pub proof fn law_pairing_needs_pin(
    cached: bool,
    pairing_service: bool,
    reconnect_service: bool,
    world: PairingWorld,
)
    ensures
        pairing_end(cached, pairing_service, reconnect_service, world) is Paired ==> six_digits(
            world.pin,
        ) && pairing_service && world.pairs,
        pairing_end(cached, pairing_service, reconnect_service, world) is Reconnected ==> cached
            && world.verifies && (pairing_service || reconnect_service),
{
}

/// The end of a whole run of the flow, given what each of its requests would be answered.
pub fn ensure_pairing(
    has_cached_record: bool,
    has_pairing_service: bool,
    has_reconnect_service: bool,
    verifies: bool,
    pin: String,
    outcome: Result<(), PairingFailure>,
) -> (r: Result<PairingStage, PairingFailure>)
    ensures
        match pairing_end(
            has_cached_record,
            has_pairing_service,
            has_reconnect_service,
            PairingWorld { verifies, pin: pin@, pairs: outcome is Ok },
        ) {
            PairingEnd::Reconnected => r == Ok::<PairingStage, PairingFailure>(
                PairingStage::Reconnected,
            ),
            PairingEnd::Paired => r == Ok::<PairingStage, PairingFailure>(PairingStage::Paired),
            PairingEnd::Cancelled => r == Err::<PairingStage, PairingFailure>(
                PairingFailure::Cancelled,
            ),
            PairingEnd::InvalidPin => r == Err::<PairingStage, PairingFailure>(
                PairingFailure::InvalidPin,
            ),
            PairingEnd::StaleRecord => r == Err::<PairingStage, PairingFailure>(
                PairingFailure::StaleRecord,
            ),
            PairingEnd::ServiceDisappeared => r == Err::<PairingStage, PairingFailure>(
                PairingFailure::ServiceDisappeared,
            ),
            PairingEnd::Refused => outcome matches Err(e) && r == Err::<
                PairingStage,
                PairingFailure,
            >(e),
        },
{
    let mut flow: PairingFlow = PairingFlow::new(
        has_cached_record,
        has_pairing_service,
        has_reconnect_service,
    );
    let first: PairingRequest = flow.start();
    let second: PairingRequest = match first {
        PairingRequest::Verify => flow.verified(verifies),
        other => other,
    };
    let third: PairingRequest = match second {
        PairingRequest::AskPin => flow.pin_entered(pin),
        other => other,
    };
    let fourth: PairingRequest = match third {
        PairingRequest::Pair(_) => flow.paired(outcome),
        other => other,
    };
    match fourth {
        PairingRequest::Finish(end) => end,
        _ => Err(PairingFailure::ServiceDisappeared),
    }
}

/// How a pairing ends, told by what the device and the user do: a record that still verifies is used
/// without a PIN; else a new pairing needs the service for it, a PIN of six digits and the device's
/// consent, and what is missing first is what is told.
pub proof fn law_how_pairing_ends(
    cached: bool,
    pairing_service: bool,
    reconnect_service: bool,
    world: PairingWorld,
)
    ensures
        ({
            let end = pairing_end(cached, pairing_service, reconnect_service, world);
            let reuses = cached && (pairing_service || reconnect_service) && world.verifies;
            let valid = world.pin.len() == 6 && forall|i: int|
                0 <= i < 6 ==> '0' <= #[trigger] world.pin[i] && world.pin[i] <= '9';
            &&& end is Reconnected <==> reuses
            &&& end is Paired <==> !reuses && pairing_service && valid && world.pairs
            &&& end is Cancelled <==> !reuses && pairing_service && world.pin.len() == 0
            &&& end is InvalidPin <==> !reuses && pairing_service && world.pin.len() > 0 && !valid
            &&& end is Refused <==> !reuses && pairing_service && valid && !world.pairs
            &&& end is StaleRecord <==> !reuses && !pairing_service && cached && reconnect_service
            &&& end is ServiceDisappeared <==> !pairing_service && !reconnect_service || (
            !pairing_service && !cached)
        }),
{
}

} // verus!
