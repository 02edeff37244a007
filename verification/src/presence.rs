//! Which Apple TVs are on the network, from one scan to the next.
use crate::device::{info_applied, Device, Endpoint, IpModel, TvosDeviceInfo};
use crate::discovery::{disconnected_after_missed_scans, is_gone, misses, misses_after};
use crate::text::same_text;
use std::collections::{HashMap, HashSet};
use vstd::prelude::*;

verus! {

/// The scans in a row that a device must be missed in before it counts as gone.
pub const REQUIRED_MISSES: u32 = 2;

/// The time in nanoseconds from the start of one scan to the next.
pub const SCAN_INTERVAL: u128 = 30_000_000_000;

/// What was last told of a device.
#[derive(Debug)]
pub struct EmittedState {
    pub pairing_address: Option<Endpoint>,
    pub reconnect_address: Option<Endpoint>,
    pub udid: String,
}

/// The content of an address and a port.
pub open spec fn endpoint_model(e: Option<Endpoint>) -> Option<(IpModel, u16)> {
    match e {
        Some(e) => Some((e.ip@, e.port)),
        None => None,
    }
}

/// The content of what was last told of a device.
#[verifier::ext_equal]
pub ghost struct EmittedModel {
    pub pairing: Option<(IpModel, u16)>,
    pub reconnect: Option<(IpModel, u16)>,
    pub udid: Seq<char>,
}

impl View for EmittedState {
    type V = EmittedModel;

    open spec fn view(&self) -> EmittedModel {
        EmittedModel {
            pairing: endpoint_model(self.pairing_address),
            reconnect: endpoint_model(self.reconnect_address),
            udid: self.udid@,
        }
    }
}

/// What is told of a device.
pub open spec fn state_of(device: Device) -> EmittedModel {
    EmittedModel {
        pairing: endpoint_model(device.pairing_address),
        reconnect: endpoint_model(device.reconnect_address),
        udid: device.udid@,
    }
}

fn same_endpoint(a: &Option<Endpoint>, b: &Option<Endpoint>) -> (r: bool)
    ensures
        r == (endpoint_model(*a) == endpoint_model(*b)),
{
    match (a, b) {
        (Some(x), Some(y)) => x.ip.same(&y.ip) && x.port == y.port,
        (None, None) => true,
        _ => false,
    }
}

/// What is to be done to learn who a device is.
#[derive(Debug, Clone, Copy, PartialEq, Eq, Structural)]
pub enum Identification {
    /// It is known already.
    Known,
    /// Ask the device through a tunnel.
    Fetch,
    /// It was never paired, so it cannot be asked.
    Skip,
}

/// What is known from one scan to the next.
pub struct NetworkPresence {
    /// Devices that were told of and are not gone.
    pub present_ids: HashSet<u32>,
    pub last_emitted: HashMap<u32, EmittedState>,
    /// The scans in a row in which a device was missed.
    pub miss_counts: HashMap<u32, u32>,
    /// Who devices are, once they were asked.
    pub enriched: HashMap<u32, TvosDeviceInfo>,
    /// The devices of the scan that is under way.
    pub current_ids: HashSet<u32>,
}

impl NetworkPresence {
    /// No device was missed as often as it takes to be gone.
    pub open spec fn wf(self) -> bool {
        forall|id: u32| #[trigger]
            self.miss_counts@.contains_key(id) ==> self.miss_counts@[id] < REQUIRED_MISSES
    }

    pub fn new() -> (r: NetworkPresence)
        ensures
            r.wf(),
            r.present_ids@ == Set::<u32>::empty(),
            r.last_emitted@ == Map::<u32, EmittedState>::empty(),
            r.miss_counts@ == Map::<u32, u32>::empty(),
            r.enriched@ == Map::<u32, TvosDeviceInfo>::empty(),
            r.current_ids@ == Set::<u32>::empty(),
    {
        NetworkPresence {
            present_ids: HashSet::new(),
            last_emitted: HashMap::new(),
            miss_counts: HashMap::new(),
            enriched: HashMap::new(),
            current_ids: HashSet::new(),
        }
    }

    /// How to learn who a device is. A device that told of itself is not asked again, and one that
    /// was not paired is not asked at all; one that gave no answer may be asked again.
    pub fn identification(&self, id: u32, has_pairing: bool) -> (r: Identification)
        ensures
            r == if self.enriched@.contains_key(id) {
                Identification::Known
            } else if has_pairing {
                Identification::Fetch
            } else {
                Identification::Skip
            },
    {
        broadcast use vstd::std_specs::hash::group_hash_axioms;

        if self.enriched.contains_key(&id) {
            Identification::Known
        } else if has_pairing {
            Identification::Fetch
        } else {
            Identification::Skip
        }
    }

    /// Takes over what is known of who a device is.
    pub fn enrich(&self, device: &mut Device)
        ensures
            if self.enriched@.contains_key(old(device).device_id) && old(device).pairing_identity is Some {
                info_applied(
                    *old(device),
                    self.enriched@[old(device).device_id],
                    *final(device),
                )
            } else {
                *final(device) == *old(device)
            },
    {
        broadcast use vstd::std_specs::hash::group_hash_axioms;

        if let Some(info) = self.enriched.get(&device.device_id) {
            device.apply_tvos_info(info);
        }
    }

    /// A device told who it is.
    pub fn identified(&mut self, id: u32, info: TvosDeviceInfo)
        requires
            old(self).wf(),
        ensures
            final(self).wf(),
            final(self).enriched@ == old(self).enriched@.insert(id, info),
            final(self).present_ids@ == old(self).present_ids@,
            final(self).last_emitted@ == old(self).last_emitted@,
            final(self).miss_counts@ == old(self).miss_counts@,
            final(self).current_ids@ == old(self).current_ids@,
    {
        broadcast use vstd::std_specs::hash::group_hash_axioms;

        self.enriched.insert(id, info);
    }

    /// What was last told of a device is still true.
    pub open spec fn is_told(self, device: Device) -> bool {
        &&& self.present_ids@.contains(device.device_id)
        &&& self.last_emitted@.contains_key(device.device_id)
        &&& self.last_emitted@[device.device_id]@ == state_of(device)
    }

    /// A scan found a device. Returns whether that is to be told: where the device is new, or its
    /// addresses or its identifier have changed.
    pub fn found(&mut self, device: &Device) -> (r: bool)
        requires
            old(self).wf(),
        ensures
            final(self).wf(),
            r == !old(self).is_told(*device),
            final(self).is_told(*device),
            final(self).current_ids@ == old(self).current_ids@.insert(device.device_id),
            final(self).miss_counts@ == old(self).miss_counts@.remove(device.device_id),
            final(self).enriched@ == old(self).enriched@,
            final(self).present_ids@ == old(self).present_ids@.insert(device.device_id),
            forall|id: u32|
                id != device.device_id ==> (#[trigger] final(self).last_emitted@.contains_key(id) == old(self).last_emitted@.contains_key(
                    id,
                )) && (old(self).last_emitted@.contains_key(id) ==> final(self).last_emitted@[id]
                    == old(self).last_emitted@[id]),
    {
        broadcast use vstd::std_specs::hash::group_hash_axioms;

        let id: u32 = device.device_id;
        self.current_ids.insert(id);
        self.miss_counts.remove(&id);
        let told: bool = match self.last_emitted.get(&id) {
            Some(s) => self.present_ids.contains(&id) && same_endpoint(
                &s.pairing_address,
                &device.pairing_address,
            ) && same_endpoint(&s.reconnect_address, &device.reconnect_address) && same_text(
                s.udid.as_str(),
                device.udid.as_str(),
            ),
            None => false,
        };
        if told {
            proof {
                assert(old(self).present_ids@.insert(id) =~= old(self).present_ids@);
            }
            return false;
        }
        self.present_ids.insert(id);
        self.last_emitted.insert(
            id,
            EmittedState {
                pairing_address: device.pairing_address.clone(),
                reconnect_address: device.reconnect_address.clone(),
                udid: device.udid.clone(),
            },
        );
        true
    }

    /// A device is gone after this scan.
    pub open spec fn leaves(self, id: u32) -> bool {
        is_gone(
            self.present_ids@,
            self.current_ids@,
            self.miss_counts@,
            REQUIRED_MISSES,
            id,
        )
    }

    /// The scan has ended. Returns the devices that are gone: those that were missed in two scans in
    /// a row. A scan that failed is not ended, so it counts for nothing.
    pub fn scan_ended(&mut self) -> (r: Vec<u32>)
        requires
            old(self).wf(),
        ensures
            final(self).wf(),
            r@.no_duplicates(),
            forall|id: u32| r@.contains(id) == #[trigger] old(self).leaves(id),
            forall|id: u32| #[trigger]
                final(self).present_ids@.contains(id) == (old(self).present_ids@.contains(id)
                    && !old(self).leaves(id)),
            forall|id: u32| #[trigger]
                final(self).last_emitted@.contains_key(id) == (old(self).last_emitted@.contains_key(id) && !old(self).leaves(id)),
            forall|id: u32| #[trigger]
                final(self).last_emitted@.contains_key(id) ==> final(self).last_emitted@[id] == old(self).last_emitted@[id],
            forall|id: u32|
                match #[trigger] misses_after(
                    old(self).present_ids@,
                    old(self).current_ids@,
                    old(self).miss_counts@,
                    REQUIRED_MISSES,
                    id,
                ) {
                    Some(n) => final(self).miss_counts@.contains_key(id) && final(self).miss_counts@[id] == n,
                    None => !final(self).miss_counts@.contains_key(id),
                },
            final(self).enriched@ == old(self).enriched@,
            final(self).current_ids@ == Set::<u32>::empty(),
    {
        broadcast use vstd::std_specs::hash::group_hash_axioms;

        let ghost start = *self;
        proof {
            assert forall|id: u32|
                self.present_ids@.contains(id) && !self.current_ids@.contains(id) implies
                #[trigger] misses(self.miss_counts@, id) <= u32::MAX by {
                if self.miss_counts@.contains_key(id) {
                    assert(self.miss_counts@[id] < REQUIRED_MISSES);
                }
            }
        }
        let gone: Vec<u32> = disconnected_after_missed_scans(
            &mut self.present_ids,
            &self.current_ids,
            &mut self.miss_counts,
            REQUIRED_MISSES,
        );
        proof {
            assert forall|id: u32| #[trigger]
                self.miss_counts@.contains_key(id) implies self.miss_counts@[id]
                < REQUIRED_MISSES by {
                let after = misses_after(
                    start.present_ids@,
                    start.current_ids@,
                    start.miss_counts@,
                    REQUIRED_MISSES,
                    id,
                );
                assert(after is Some);
                if start.miss_counts@.contains_key(id) {
                    assert(start.miss_counts@[id] < REQUIRED_MISSES);
                }
            }
        }
        let ghost middle = *self;
        let mut i: usize = 0;
        while i < gone.len()
            invariant
                i <= gone@.len(),
                self.present_ids@ == middle.present_ids@,
                self.miss_counts@ == middle.miss_counts@,
                self.enriched@ == middle.enriched@,
                forall|id: u32| #[trigger]
                    self.last_emitted@.contains_key(id) == (start.last_emitted@.contains_key(id)
                        && !gone@.take(i as int).contains(id)),
                forall|id: u32| #[trigger]
                    self.last_emitted@.contains_key(id) ==> self.last_emitted@[id]
                        == start.last_emitted@[id],
            decreases gone@.len() - i,
        {
            self.last_emitted.remove(&gone[i]);
            proof {
                let before = gone@.take(i as int);
                let after = gone@.take(i + 1);
                assert(after =~= before.push(gone@[i as int]));
                assert forall|id: u32| #[trigger]
                    after.contains(id) == (before.contains(id) || id == gone@[i as int]) by {
                    if before.contains(id) {
                        let j = choose|j: int| 0 <= j < before.len() && before[j] == id;
                        assert(after[j] == id);
                    }
                    assert(after[i as int] == gone@[i as int]);
                }
            }
            i += 1;
        }
        proof {
            assert(gone@.take(gone@.len() as int) =~= gone@);
        }
        self.current_ids = HashSet::new();
        gone
    }
}

/// A device that only one scan missed is not gone.
pub proof fn law_one_missed_scan_is_no_loss(presence: NetworkPresence, id: u32)
    requires
        !presence.miss_counts@.contains_key(id),
    ensures
        !presence.leaves(id),
{
}

/// A device that two scans in a row missed is gone.
pub proof fn law_two_missed_scans_are_a_loss(presence: NetworkPresence, id: u32)
    requires
        presence.present_ids@.contains(id),
        !presence.current_ids@.contains(id),
        presence.miss_counts@.contains_key(id),
        presence.miss_counts@[id] == 1,
    ensures
        presence.leaves(id),
{
}

/// How long to wait until the next scan, so that scans start at an even pace.
pub fn wait_after_scan(elapsed: u128) -> (r: u128)
    ensures
        r == if elapsed < SCAN_INTERVAL {
            (SCAN_INTERVAL - elapsed) as u128
        } else {
            0
        },
{
    if elapsed < SCAN_INTERVAL {
        SCAN_INTERVAL - elapsed
    } else {
        0
    }
}

/// What the multiplexing daemon tells.
#[derive(Debug)]
pub enum MuxEvent {
    Connected(Device),
    Disconnected(u32),
    /// Something that could not be read.
    Unreadable,
}

/// What is told on.
#[derive(Debug)]
pub enum DeviceNews {
    Connected(Device),
    Disconnected(u32),
}

/// What is told on of an event; what could not be read is passed over.
pub fn device_news(event: MuxEvent) -> (r: Option<DeviceNews>)
    ensures
        r == match event {
            MuxEvent::Connected(d) => Some(DeviceNews::Connected(d)),
            MuxEvent::Disconnected(id) => Some(DeviceNews::Disconnected(id)),
            MuxEvent::Unreadable => None,
        },
{
    match event {
        MuxEvent::Connected(d) => Some(DeviceNews::Connected(d)),
        MuxEvent::Disconnected(id) => Some(DeviceNews::Disconnected(id)),
        MuxEvent::Unreadable => None,
    }
}

/// A device counts as told only as it was told: another address or another identifier is told again,
/// and so is one that is not present.
pub proof fn law_changed_device_is_told_again(presence: NetworkPresence, a: Device, b: Device)
    requires
        presence.is_told(a),
        a.device_id == b.device_id,
        a.udid@ != b.udid@ || endpoint_model(a.pairing_address) != endpoint_model(b.pairing_address)
            || endpoint_model(a.reconnect_address) != endpoint_model(b.reconnect_address),
    ensures
        !presence.is_told(b),
        presence.present_ids@.contains(a.device_id),
{
    assert(state_of(a) != state_of(b)) by {
        assert(state_of(a).udid == a.udid@ && state_of(b).udid == b.udid@);
    }
}

/// A device that is there in the current scan does not leave, and one that is not present cannot.
pub proof fn law_seen_device_does_not_leave(presence: NetworkPresence, id: u32)
    requires
        presence.current_ids@.contains(id) || !presence.present_ids@.contains(id),
    ensures
        !presence.leaves(id),
{
}

} // verus!
