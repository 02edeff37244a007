//! What is learned from the resolver of the operating system during a scan.
use crate::device::{IpAddress, IpModel};
use crate::discovery::{
    all_scanned_service_types, build_device, dedup_key, enrich_and_filter, enriched_list,
    parse_instance_name, scanned_services, DiscoveredDevice, COMPANION_LINK_SERVICE,
    REMOTEPAIRING_MANUAL_PAIRING_SERVICE, REMOTEPAIRING_SERVICE,
};
use crate::error::PlumeError;
use crate::sort::{
    in_order, key_le, keys_of, law_order_is_unique, lemma_key_of_three, lemma_key_of_two,
    lemma_number_key, lemma_text_key, sort_items, text_key, KeyOrder,
};
use crate::table::{
    held, law_stored_again, law_stored_then_held, lemma_slot, lemma_slot_is, slot, stored, Table,
    TableKey,
};
use crate::text::{
    ascii_lowercase, chars_of, index_or_len, lower, opt_text, same_text, string_of, text_not_after,
    texts, trim_end_char, without_trailing,
};
use vstd::prelude::*;

verus! {

/// The status of a request that was accepted and answers later.
pub const DNS_REQUEST_PENDING: i32 = 9506;

/// The status of a request that succeeded.
pub const ERROR_SUCCESS: i32 = 0;

/// The largest number of records that are read of one chain.
pub const MAX_RECORD_CHAIN: usize = 512;

/// The largest number of texts or properties that are read of one record.
pub const MAX_PROPERTIES: usize = 256;

/// The largest number of instances that are resolved in one scan.
pub const MAX_RESOLVES: usize = 32;

/// The time in nanoseconds without news after which browsing ends.
pub const BROWSE_QUIET_PERIOD: u128 = 1_200_000_000;

/// The longest wait in nanoseconds for one event.
pub const POLL_INTERVAL: u128 = 200_000_000;

// ---------------------------------------------------------------------------
// Names
// ---------------------------------------------------------------------------

/// The name of a service in a query: without the dots at its end.
pub fn query_name(service_type: &str) -> (r: String)
    ensures
        r@ == without_trailing(service_type@, '.'),
{
    trim_end_char(service_type, '.')
}

/// The rank of a service among those to resolve.
pub open spec fn service_rank(service_type: Seq<char>) -> u8 {
    if service_type == REMOTEPAIRING_MANUAL_PAIRING_SERVICE@ || service_type
        == REMOTEPAIRING_SERVICE@ {
        0
    } else if service_type == COMPANION_LINK_SERVICE@ {
        1
    } else {
        2
    }
}

/// The rank of a service among those to resolve: pairing first, then metadata, then the others.
pub fn resolve_priority(service_type: &str) -> (r: u8)
    ensures
        r == service_rank(service_type@),
{
    if same_text(service_type, REMOTEPAIRING_MANUAL_PAIRING_SERVICE) || same_text(
        service_type,
        REMOTEPAIRING_SERVICE,
    ) {
        0
    } else if same_text(service_type, COMPANION_LINK_SERVICE) {
        1
    } else {
        2
    }
}

/// The key and the value in a `key=value` text; a text without `=` is a key without a value.
pub open spec fn txt_parts(entry: Seq<char>) -> (Seq<char>, Seq<char>) {
    let at = index_or_len(entry, '=', 0);
    if at < entry.len() {
        (entry.take(at), entry.skip(at + 1))
    } else {
        (entry, seq![])
    }
}

/// The key and the value in a `key=value` text.
pub fn split_txt(entry: &str) -> (r: (String, String))
    ensures
        (r.0@, r.1@) == txt_parts(entry@),
{
    let chars: Vec<char> = chars_of(entry);
    let n: usize = chars.len();
    let mut i: usize = 0;
    while i < n && chars[i] != '='
        invariant
            chars@ == entry@,
            i <= n == chars@.len(),
            index_or_len(entry@, '=', 0) == index_or_len(entry@, '=', i as int),
        decreases n - i,
    {
        i += 1;
    }
    if i < n {
        let key: String = string_of(&chars, 0, i);
        let value: String = string_of(&chars, i + 1, n);
        proof {
            assert(key@ =~= entry@.take(i as int));
            assert(value@ =~= entry@.skip(i + 1));
        }
        (key, value)
    } else {
        let empty: String = String::new();
        proof {
            assert(empty@ =~= seq![]);
        }
        (entry.to_string(), empty)
    }
}

// ---------------------------------------------------------------------------
// Order of resolving
// ---------------------------------------------------------------------------

/// The rank of the service with an index; one without a service comes last.
pub open spec fn rank_at(service_types: Seq<Seq<char>>, idx: usize) -> u8 {
    if idx < service_types.len() {
        service_rank(service_types[idx as int])
    } else {
        u8::MAX
    }
}

/// What candidates are ordered by: the rank of the service, its index, and the name.
pub open spec fn candidate_key(service_types: Seq<Seq<char>>, c: (usize, String)) -> Seq<Seq<int>> {
    seq![seq![rank_at(service_types, c.0) as int], seq![c.0 as int], text_key(c.1@)]
}

/// The order in which instances are resolved.
pub struct CandidateOrder<'a> {
    pub service_types: &'a Vec<String>,
}

impl<'a> CandidateOrder<'a> {
    fn rank(&self, idx: usize) -> (r: u8)
        ensures
            r == rank_at(texts(self.service_types@), idx),
    {
        if idx < self.service_types.len() {
            proof {
                assert(texts(self.service_types@)[idx as int] == self.service_types@[idx as int]@);
            }
            resolve_priority(self.service_types[idx].as_str())
        } else {
            255
        }
    }
}

impl<'a> KeyOrder<(usize, String)> for CandidateOrder<'a> {
    open spec fn key(&self, item: (usize, String)) -> Seq<Seq<int>> {
        candidate_key(texts(self.service_types@), item)
    }

    fn not_after(&self, a: &(usize, String), b: &(usize, String)) -> (r: bool) {
        let ra: u8 = self.rank(a.0);
        let rb: u8 = self.rank(b.0);
        proof {
            lemma_key_of_three(
                seq![ra as int],
                seq![a.0 as int],
                text_key(a.1@),
                seq![rb as int],
                seq![b.0 as int],
                text_key(b.1@),
            );
            lemma_key_of_two(seq![a.0 as int], text_key(a.1@), seq![b.0 as int], text_key(b.1@));
            lemma_number_key(ra as int, rb as int);
            lemma_number_key(a.0 as int, b.0 as int);
            lemma_text_key(a.1@, b.1@);
            crate::text::lemma_text_le_reflexive(a.1@);
        }
        if ra != rb {
            ra < rb
        } else if a.0 != b.0 {
            a.0 < b.0
        } else {
            text_not_after(a.1.as_str(), b.1.as_str())
        }
    }
}

/// The keys of candidates.
pub open spec fn candidate_keys(
    service_types: Seq<Seq<char>>,
    candidates: Seq<(usize, String)>,
) -> Seq<Seq<Seq<int>>> {
    candidates.map_values(|c: (usize, String)| candidate_key(service_types, c))
}

/// The candidates in the order in which they are resolved.
pub fn order_resolve_candidates(
    candidates: Vec<(usize, String)>,
    service_types: &Vec<String>,
) -> (r: Vec<(usize, String)>)
    ensures
        r@.to_multiset() == candidates@.to_multiset(),
        in_order(candidate_keys(texts(service_types@), r@)),
{
    let order: CandidateOrder = CandidateOrder { service_types };
    let r: Vec<(usize, String)> = sort_items(&order, candidates);
    proof {
        assert(keys_of(order, r@) =~= candidate_keys(texts(service_types@), r@));
    }
    r
}

/// The order of resolving depends on which candidates there are alone, not on the order in which
/// they were collected.
pub proof fn law_resolve_order_is_unique(
    service_types: Seq<Seq<char>>,
    a: Seq<(usize, String)>,
    b: Seq<(usize, String)>,
)
    requires
        in_order(candidate_keys(service_types, a)),
        in_order(candidate_keys(service_types, b)),
        candidate_keys(service_types, a).to_multiset() == candidate_keys(
            service_types,
            b,
        ).to_multiset(),
    ensures
        a.len() == b.len(),
        forall|i: int| 0 <= i < a.len() ==> (#[trigger] a[i]).0 == b[i].0 && a[i].1@ == b[i].1@,
{
    let ka = candidate_keys(service_types, a);
    let kb = candidate_keys(service_types, b);
    law_order_is_unique(ka, kb);
    assert(ka.len() == a.len() && kb.len() == b.len());
    assert forall|i: int| 0 <= i < a.len() implies (#[trigger] a[i]).0 == b[i].0 && a[i].1@
        == b[i].1@ by {
        assert(ka[i] == candidate_key(service_types, a[i]));
        assert(kb[i] == candidate_key(service_types, b[i]));
        assert(ka[i][1] == seq![a[i].0 as int]);
        assert(kb[i][1] == seq![b[i].0 as int]);
        lemma_number_key(a[i].0 as int, b[i].0 as int);
        assert(ka[i][2] == text_key(a[i].1@));
        assert(kb[i][2] == text_key(b[i].1@));
        lemma_text_key(a[i].1@, b[i].1@);
    }
}

/// In the order of resolving, no service of a lower rank comes before one of a higher rank.
pub proof fn law_pairing_services_first(
    service_types: Seq<Seq<char>>,
    ordered: Seq<(usize, String)>,
    i: int,
    j: int,
)
    requires
        in_order(candidate_keys(service_types, ordered)),
        0 <= i < j < ordered.len(),
    ensures
        rank_at(service_types, ordered[i].0) <= rank_at(service_types, ordered[j].0),
{
    let keys = candidate_keys(service_types, ordered);
    let a = ordered[i];
    let b = ordered[j];
    assert(keys[i] == candidate_key(service_types, a));
    assert(keys[j] == candidate_key(service_types, b));
    assert(key_le(keys[i], keys[j]));
    lemma_key_of_three(
        seq![rank_at(service_types, a.0) as int],
        seq![a.0 as int],
        text_key(a.1@),
        seq![rank_at(service_types, b.0) as int],
        seq![b.0 as int],
        text_key(b.1@),
    );
    lemma_number_key(rank_at(service_types, a.0) as int, rank_at(service_types, b.0) as int);
}

// ---------------------------------------------------------------------------
// Records and events
// ---------------------------------------------------------------------------

/// What a record of a browse says.
#[derive(Debug)]
pub enum RecordData {
    /// The full name of an instance.
    Pointer(String),
    Service { target: String, port: u16 },
    Texts(Vec<String>),
    Address(IpAddress),
    Other,
}

/// A record of a browse.
#[derive(Debug)]
pub struct BrowseRecord {
    pub owner: String,
    pub data: RecordData,
}

/// What was learned from one record.
#[derive(Debug)]
pub enum BrowseEvent {
    /// The full name of an instance of the browsed service.
    Instance { service_idx: usize, full_name: String },
    /// The host and port of an instance.
    Srv { service_idx: usize, full_name: String, target: String, port: u16 },
    /// Properties of an instance.
    Txt { service_idx: usize, full_name: String, strings: Vec<String> },
    /// An address of a host.
    Address { host: String, addr: IpAddress },
}

/// The texts of a list that are not empty, among its first `n`.
pub open spec fn non_empty_texts(strings: Seq<String>, n: int) -> Seq<Seq<char>>
    decreases n,
{
    if n <= 0 {
        seq![]
    } else {
        let head = non_empty_texts(strings, n - 1);
        if strings[n - 1]@.len() == 0 {
            head
        } else {
            head.push(strings[n - 1]@)
        }
    }
}

/// The number of texts that are read of a record.
pub open spec fn read_count(strings: Seq<String>) -> int {
    if strings.len() < MAX_PROPERTIES {
        strings.len() as int
    } else {
        MAX_PROPERTIES as int
    }
}

/// `event` is what is learned from `record`; none where the record has no name or says nothing.
pub open spec fn learned(record: BrowseRecord, service_idx: usize, event: Option<BrowseEvent>) -> bool {
    match record.data {
        RecordData::Pointer(target) => event == if target@.len() == 0 {
            None::<BrowseEvent>
        } else {
            Some(BrowseEvent::Instance { service_idx, full_name: target })
        },
        RecordData::Service { target, port } => event == if record.owner@.len() == 0 {
            None::<BrowseEvent>
        } else {
            Some(BrowseEvent::Srv { service_idx, full_name: record.owner, target, port })
        },
        RecordData::Texts(strings) => {
            let kept = non_empty_texts(strings@, read_count(strings@));
            if record.owner@.len() == 0 || kept.len() == 0 {
                event is None
            } else {
                event matches Some(BrowseEvent::Txt { service_idx: i, full_name, strings: out }) && i
                    == service_idx && full_name == record.owner && texts(out@) == kept
            }
        },
        RecordData::Address(addr) => event == if record.owner@.len() == 0 {
            None::<BrowseEvent>
        } else {
            Some(BrowseEvent::Address { host: record.owner, addr })
        },
        RecordData::Other => event is None,
    }
}

fn blank(s: &String) -> (r: bool)
    ensures
        r == (s@.len() == 0),
{
    crate::device::is_blank(s.as_str())
}

/// What is learned from one record.
pub fn record_event(record: BrowseRecord, service_idx: usize) -> (r: Option<BrowseEvent>)
    ensures
        learned(record, service_idx, r),
{
    let owner: String = record.owner;
    match record.data {
        RecordData::Pointer(target) => if blank(&target) {
            None
        } else {
            Some(BrowseEvent::Instance { service_idx, full_name: target })
        },
        RecordData::Service { target, port } => if blank(&owner) {
            None
        } else {
            Some(BrowseEvent::Srv { service_idx, full_name: owner, target, port })
        },
        RecordData::Texts(strings) => {
            let mut kept: Vec<String> = Vec::new();
            let mut i: usize = 0;
            proof {
                assert(texts(kept@) =~= non_empty_texts(strings@, 0));
            }
            while i < strings.len() && i < MAX_PROPERTIES
                invariant
                    i <= strings@.len(),
                    i <= MAX_PROPERTIES,
                    texts(kept@) == non_empty_texts(strings@, i as int),
                decreases strings@.len() - i,
            {
                let ghost before = kept@;
                if !blank(&strings[i]) {
                    kept.push(strings[i].clone());
                    proof {
                        assert(texts(kept@) =~= texts(before).push(strings@[i as int]@));
                    }
                }
                i += 1;
            }
            proof {
                assert(texts(kept@).len() == kept@.len());
            }
            if blank(&owner) || kept.len() == 0 {
                None
            } else {
                Some(BrowseEvent::Txt { service_idx, full_name: owner, strings: kept })
            }
        },
        RecordData::Address(addr) => if blank(&owner) {
            None
        } else {
            Some(BrowseEvent::Address { host: owner, addr })
        },
        RecordData::Other => None,
    }
}

/// `events` are what is learned from the first `n` of `records`, in their order.
pub open spec fn walked(
    records: Seq<BrowseRecord>,
    n: int,
    service_idx: usize,
    events: Seq<BrowseEvent>,
) -> bool
    decreases n,
{
    if n <= 0 {
        events.len() == 0
    } else {
        ||| learned(records[n - 1], service_idx, None) && walked(records, n - 1, service_idx, events)
        ||| events.len() > 0 && learned(records[n - 1], service_idx, Some(events.last())) && walked(
            records,
            n - 1,
            service_idx,
            events.drop_last(),
        )
    }
}

/// What is learned from a chain of records, of which no more than [`MAX_RECORD_CHAIN`] are read.
pub fn walk_browse_records(records: Vec<BrowseRecord>, service_idx: usize) -> (r: Vec<BrowseEvent>)
    ensures
        walked(
            records@,
            if records@.len() < MAX_RECORD_CHAIN {
                records@.len() as int
            } else {
                MAX_RECORD_CHAIN as int
            },
            service_idx,
            r@,
        ),
{
    let ghost all = records@;
    let mut rest: Vec<BrowseRecord> = records;
    let mut events: Vec<BrowseEvent> = Vec::new();
    let mut visited: usize = 0;
    proof {
        assert(all.skip(0) =~= all);
    }
    while rest.len() > 0 && visited < MAX_RECORD_CHAIN
        invariant
            visited <= all.len(),
            visited <= MAX_RECORD_CHAIN,
            rest@ == all.skip(visited as int),
            walked(all, visited as int, service_idx, events@),
        decreases rest@.len(),
    {
        let ghost before = events@;
        let record: BrowseRecord = rest.remove(0);
        let event: Option<BrowseEvent> = record_event(record, service_idx);
        proof {
            assert(record == all[visited as int]);
            assert(rest@ =~= all.skip(visited + 1));
        }
        if let Some(e) = event {
            events.push(e);
            proof {
                assert(events@.drop_last() =~= before);
            }
        }
        visited += 1;
    }
    events
}

// ---------------------------------------------------------------------------
// What is known of instances
// ---------------------------------------------------------------------------

/// Addresses of a host, each once.
#[derive(Debug)]
pub struct AddressList {
    pub items: Vec<IpAddress>,
}

impl View for AddressList {
    type V = Seq<IpModel>;

    open spec fn view(&self) -> Seq<IpModel> {
        addresses(self.items@)
    }
}

/// The contents of a list of addresses.
pub open spec fn addresses(v: Seq<IpAddress>) -> Seq<IpModel> {
    v.map_values(|a: IpAddress| a@)
}

fn duplicate_addresses(v: &Vec<IpAddress>) -> (r: Vec<IpAddress>)
    ensures
        r@ == v@,
{
    let mut r: Vec<IpAddress> = Vec::new();
    let mut i: usize = 0;
    while i < v.len()
        invariant
            i <= v@.len(),
            r@ == v@.take(i as int),
        decreases v@.len() - i,
    {
        r.push(v[i].clone());
        i += 1;
        proof {
            assert(r@ =~= v@.take(i as int));
        }
    }
    proof {
        assert(v@.take(v@.len() as int) =~= v@);
    }
    r
}

fn has_address(v: &Vec<IpAddress>, addr: &IpAddress) -> (r: bool)
    ensures
        r == addresses(v@).contains(addr@),
{
    let mut i: usize = 0;
    while i < v.len()
        invariant
            i <= v@.len(),
            forall|j: int| 0 <= j < i ==> addresses(v@)[j] != addr@,
        decreases v@.len() - i,
    {
        if v[i].same(addr) {
            proof {
                assert(addresses(v@)[i as int] == addr@);
            }
            return true;
        }
        i += 1;
    }
    proof {
        if addresses(v@).contains(addr@) {
            let j = choose|j: int| 0 <= j < addresses(v@).len() && addresses(v@)[j] == addr@;
            assert(false);
        }
    }
    false
}

/// What is known of one instance of a service.
#[derive(Debug)]
pub struct InstanceState {
    /// The name as it came, in its own letter case.
    pub full_name: String,
    pub hostname: Option<String>,
    pub port: Option<u16>,
    pub props: Table<String, String>,
    /// Addresses that resolving the instance itself gave.
    pub resolved_addresses: Vec<IpAddress>,
}

/// The content of an instance's state.
#[verifier::ext_equal]
pub ghost struct InstanceModel {
    pub full_name: Seq<char>,
    pub hostname: Option<Seq<char>>,
    pub port: Option<u16>,
    pub props: Seq<(Seq<char>, Seq<char>)>,
    pub resolved: Seq<IpModel>,
}

impl View for InstanceState {
    type V = InstanceModel;

    open spec fn view(&self) -> InstanceModel {
        InstanceModel {
            full_name: self.full_name@,
            hostname: opt_text(self.hostname),
            port: self.port,
            props: self.props@,
            resolved: addresses(self.resolved_addresses@),
        }
    }
}

/// An instance of which only the name is known.
pub open spec fn fresh_instance(full_name: Seq<char>) -> InstanceModel {
    InstanceModel { full_name, hostname: None, port: None, props: seq![], resolved: seq![] }
}

fn new_instance(full_name: String) -> (r: InstanceState)
    ensures
        r@ == fresh_instance(full_name@),
{
    let r: InstanceState = InstanceState {
        full_name,
        hostname: None,
        port: None,
        props: Table::new(),
        resolved_addresses: Vec::new(),
    };
    proof {
        assert(r@.resolved =~= seq![]);
    }
    r
}

/// A table with the same content.
fn duplicate_props(t: &Table<String, String>) -> (r: Table<String, String>)
    ensures
        r@ == t@,
{
    let mut entries: Vec<(String, String)> = Vec::new();
    let mut i: usize = 0;
    while i < t.entries.len()
        invariant
            i <= t.entries@.len(),
            entries@.len() == i,
            forall|j: int| 0 <= j < i ==> #[trigger] entries@[j] == t.entries@[j],
        decreases t.entries@.len() - i,
    {
        entries.push((t.entries[i].0.clone(), t.entries[i].1.clone()));
        i += 1;
    }
    let r: Table<String, String> = Table { entries };
    proof {
        assert(r@ =~= t@);
    }
    r
}

/// Two tables have the same content in the same order.
fn same_props(a: &Table<String, String>, b: &Table<String, String>) -> (r: bool)
    ensures
        r == (a@ == b@),
{
    proof {
        assert(a@.len() == a.entries@.len() && b@.len() == b.entries@.len());
    }
    if a.entries.len() != b.entries.len() {
        return false;
    }
    let mut i: usize = 0;
    while i < a.entries.len()
        invariant
            a.entries@.len() == b.entries@.len(),
            a@.len() == a.entries@.len(),
            b@.len() == b.entries@.len(),
            i <= a.entries@.len(),
            forall|j: int| 0 <= j < i ==> #[trigger] a@[j] == b@[j],
        decreases a.entries@.len() - i,
    {
        proof {
            let (x, y) = (a.entries@[i as int], b.entries@[i as int]);
            assert(a@[i as int] == (x.0@, x.1@));
            assert(b@[i as int] == (y.0@, y.1@));
        }
        if !same_text(a.entries[i].0.as_str(), b.entries[i].0.as_str()) || !same_text(
            a.entries[i].1.as_str(),
            b.entries[i].1.as_str(),
        ) {
            return false;
        }
        i += 1;
    }
    proof {
        assert(a@ =~= b@);
    }
    true
}

impl InstanceState {
    /// A copy with the same content.
    pub fn duplicate(&self) -> (r: InstanceState)
        ensures
            r@ == self@,
    {
        InstanceState {
            full_name: self.full_name.clone(),
            hostname: self.hostname.clone(),
            port: self.port,
            props: duplicate_props(&self.props),
            resolved_addresses: duplicate_addresses(&self.resolved_addresses),
        }
    }
}

/// The instances of a scan under the index of their service and their name.
pub type Instances = Table<(usize, String), InstanceState>;

/// The addresses of hosts under their names.
pub type HostAddresses = Table<String, AddressList>;

/// The content of [`Instances`].
pub type InstancesModel = Seq<((usize, Seq<char>), InstanceModel)>;

/// The content of [`HostAddresses`].
pub type HostsModel = Seq<(Seq<char>, Seq<IpModel>)>;

/// A name as it is compared: without the dots at its end, in lower case.
pub open spec fn folded(name: Seq<char>) -> Seq<char> {
    lower(without_trailing(name, '.'))
}

fn fold_name(name: &str) -> (r: String)
    ensures
        r@ == folded(name@),
{
    ascii_lowercase(trim_end_char(name, '.').as_str())
}

/// The state under `key`, or that of an instance of which only the name is known.
pub open spec fn known_or_fresh(
    instances: InstancesModel,
    key: (usize, Seq<char>),
    full_name: Seq<char>,
) -> InstanceModel {
    match held(instances, key) {
        Some(state) => state,
        None => fresh_instance(full_name),
    }
}

fn known_instance(instances: &Instances, key: &(usize, String), full_name: String) -> (r:
    InstanceState)
    ensures
        r@ == known_or_fresh(instances@, (key.0, key.1@), full_name@),
{
    match instances.find(key) {
        Some(state) => state.duplicate(),
        None => new_instance(full_name),
    }
}

/// Properties with those of the first `n` texts put in.
pub open spec fn props_with(
    props: Seq<(Seq<char>, Seq<char>)>,
    strings: Seq<String>,
    n: int,
) -> Seq<(Seq<char>, Seq<char>)>
    decreases n,
{
    if n <= 0 {
        props
    } else {
        let parts = txt_parts(strings[n - 1]@);
        stored(props_with(props, strings, n - 1), parts.0, parts.1)
    }
}

/// The instances after an event.
pub open spec fn instances_after(instances: InstancesModel, event: BrowseEvent) -> InstancesModel {
    match event {
        BrowseEvent::Instance { service_idx, full_name } => {
            let key = (service_idx, folded(full_name@));
            stored(instances, key, known_or_fresh(instances, key, full_name@))
        },
        BrowseEvent::Srv { service_idx, full_name, target, port } => {
            let key = (service_idx, folded(full_name@));
            let state = known_or_fresh(instances, key, full_name@);
            stored(
                instances,
                key,
                InstanceModel {
                    port: Some(port),
                    hostname: if target@.len() > 0 {
                        Some(target@)
                    } else {
                        state.hostname
                    },
                    ..state
                },
            )
        },
        BrowseEvent::Txt { service_idx, full_name, strings } => {
            let key = (service_idx, folded(full_name@));
            let state = known_or_fresh(instances, key, full_name@);
            stored(
                instances,
                key,
                InstanceModel {
                    props: props_with(state.props, strings@, strings@.len() as int),
                    ..state
                },
            )
        },
        BrowseEvent::Address { .. } => instances,
    }
}

/// The addresses of a host.
pub open spec fn addresses_of(hosts: HostsModel, host: Seq<char>) -> Seq<IpModel> {
    match held(hosts, folded(host)) {
        Some(list) => list,
        None => seq![],
    }
}

/// The addresses of hosts after an event.
pub open spec fn hosts_after(hosts: HostsModel, event: BrowseEvent) -> HostsModel {
    match event {
        BrowseEvent::Address { host, addr } => {
            let list = addresses_of(hosts, host@);
            stored(
                hosts,
                folded(host@),
                if list.contains(addr@) {
                    list
                } else {
                    list.push(addr@)
                },
            )
        },
        _ => hosts,
    }
}

/// An event tells something new: it changes what is known of the instances or of the hosts.
pub open spec fn is_news(instances: InstancesModel, hosts: HostsModel, event: BrowseEvent) -> bool {
    instances_after(instances, event) != instances || hosts_after(hosts, event) != hosts
}

/// Takes over what an event tells. Returns whether that was new.
pub fn apply_browse_event(
    event: BrowseEvent,
    instances: &mut Instances,
    host_addresses: &mut HostAddresses,
) -> (r: bool)
    ensures
        final(instances)@ == instances_after(old(instances)@, event),
        final(host_addresses)@ == hosts_after(old(host_addresses)@, event),
        r == is_news(old(instances)@, old(host_addresses)@, event),
{
    match event {
        BrowseEvent::Instance { service_idx, full_name } => {
            let key: (usize, String) = (service_idx, fold_name(full_name.as_str()));
            proof {
                let k = (service_idx, folded(full_name@));
                law_stored_again(instances@, k, known_or_fresh(instances@, k, full_name@));
            }
            if instances.find(&key).is_some() {
                false
            } else {
                instances.insert(key, new_instance(full_name));
                true
            }
        },
        BrowseEvent::Srv { service_idx, full_name, target, port } => {
            let key: (usize, String) = (service_idx, fold_name(full_name.as_str()));
            let fresh: bool = instances.find(&key).is_none();
            let mut state: InstanceState = known_instance(instances, &key, full_name);
            let new_port: bool = match state.port {
                Some(p) => p != port,
                None => true,
            };
            let new_host: bool = !blank(&target) && match &state.hostname {
                Some(h) => !same_text(h.as_str(), target.as_str()),
                None => true,
            };
            state.port = Some(port);
            if new_host {
                state.hostname = Some(target);
            }
            proof {
                law_stored_again(instances@, (service_idx, folded(full_name@)), state@);
            }
            instances.insert(key, state);
            fresh || new_port || new_host
        },
        BrowseEvent::Txt { service_idx, full_name, strings } => {
            let key: (usize, String) = (service_idx, fold_name(full_name.as_str()));
            let fresh: bool = instances.find(&key).is_none();
            let mut state: InstanceState = known_instance(instances, &key, full_name);
            let ghost start = state@;
            let mut props: Table<String, String> = duplicate_props(&state.props);
            let mut i: usize = 0;
            while i < strings.len()
                invariant
                    i <= strings@.len(),
                    props@ == props_with(start.props, strings@, i as int),
                decreases strings@.len() - i,
            {
                let (k, v): (String, String) = split_txt(strings[i].as_str());
                props.insert(k, v);
                i += 1;
            }
            let new_props: bool = !same_props(&props, &state.props);
            state.props = props;
            proof {
                law_stored_again(instances@, (service_idx, folded(full_name@)), state@);
            }
            instances.insert(key, state);
            fresh || new_props
        },
        BrowseEvent::Address { host, addr } => {
            let key: String = fold_name(host.as_str());
            let mut items: Vec<IpAddress> = match host_addresses.find(&key) {
                Some(list) => duplicate_addresses(&list.items),
                None => {
                    let none: Vec<IpAddress> = Vec::new();
                    proof {
                        assert(addresses(none@) =~= seq![]);
                    }
                    none
                },
            };
            let known: bool = has_address(&items, &addr);
            let ghost before = items@;
            if !known {
                items.push(addr);
                proof {
                    assert(addresses(items@) =~= addresses(before).push(addr@));
                }
            }
            proof {
                law_stored_again(host_addresses@, folded(host@), addresses(items@));
            }
            host_addresses.insert(key, AddressList { items });
            !known
        },
    }
}

/// An event that comes again tells nothing new.
pub proof fn law_repeated_event_is_no_news(
    instances: InstancesModel,
    hosts: HostsModel,
    event: BrowseEvent,
)
    ensures
        !is_news(instances_after(instances, event), hosts_after(hosts, event), event),
{
    match event {
        BrowseEvent::Instance { service_idx, full_name } => {
            let key = (service_idx, folded(full_name@));
            let state = known_or_fresh(instances, key, full_name@);
            law_stored_then_held(instances, key, state, key);
            law_stored_again(instances_after(instances, event), key, state);
        },
        BrowseEvent::Srv { service_idx, full_name, target, port } => {
            let key = (service_idx, folded(full_name@));
            let state = known_or_fresh(instances, key, full_name@);
            let next = InstanceModel {
                port: Some(port),
                hostname: if target@.len() > 0 {
                    Some(target@)
                } else {
                    state.hostname
                },
                ..state
            };
            law_stored_then_held(instances, key, next, key);
            law_stored_again(instances_after(instances, event), key, next);
        },
        BrowseEvent::Txt { service_idx, full_name, strings } => {
            let key = (service_idx, folded(full_name@));
            let state = known_or_fresh(instances, key, full_name@);
            let n = strings@.len() as int;
            let next = InstanceModel { props: props_with(state.props, strings@, n), ..state };
            law_stored_then_held(instances, key, next, key);
            law_stored_again(instances_after(instances, event), key, next);
            lemma_texts_again(state.props, strings@, n);
        },
        BrowseEvent::Address { host, addr } => {
            let key = folded(host@);
            let list = addresses_of(hosts, host@);
            let next = if list.contains(addr@) {
                list
            } else {
                list.push(addr@)
            };
            law_stored_then_held(hosts, key, next, key);
            law_stored_again(hosts_after(hosts, event), key, next);
            if !list.contains(addr@) {
                assert(next[list.len() as int] == addr@);
            }
        },
    }
}

/// The value that the last of the first `n` texts with `key` gives it.
spec fn last_value(strings: Seq<String>, n: int, key: Seq<char>) -> Option<Seq<char>>
    decreases n,
{
    if n <= 0 {
        None
    } else if txt_parts(strings[n - 1]@).0 == key {
        Some(txt_parts(strings[n - 1]@).1)
    } else {
        last_value(strings, n - 1, key)
    }
}

proof fn lemma_last_value_held(
    props: Seq<(Seq<char>, Seq<char>)>,
    strings: Seq<String>,
    n: int,
    key: Seq<char>,
)
    requires
        0 <= n <= strings.len(),
    ensures
        held(props_with(props, strings, n), key) == match last_value(strings, n, key) {
            Some(v) => Some(v),
            None => held(props, key),
        },
        forall|i: int|
            0 <= i < n && txt_parts((#[trigger] strings[i])@).0 == key ==> last_value(
                strings,
                n,
                key,
            ) is Some,
    decreases n,
{
    if n > 0 {
        lemma_last_value_held(props, strings, n - 1, key);
        let last = txt_parts(strings[n - 1]@);
        law_stored_then_held(props_with(props, strings, n - 1), last.0, last.1, key);
    }
}

/// Texts whose keys are all there keep the keys, and every value that is not the first of its key.
proof fn lemma_keys_kept(props: Seq<(Seq<char>, Seq<char>)>, strings: Seq<String>, n: int)
    requires
        0 <= n <= strings.len(),
        forall|i: int|
            0 <= i < n ==> held(props, txt_parts((#[trigger] strings[i])@).0) is Some,
    ensures
        props_with(props, strings, n).len() == props.len(),
        forall|j: int|
            0 <= j < props.len() ==> (#[trigger] props_with(props, strings, n)[j]).0
                == props[j].0,
        forall|j: int|
            0 <= j < props.len() && slot(props, props[j].0, 0) != j ==> (
            #[trigger] props_with(props, strings, n)[j]) == props[j],
    decreases n,
{
    if n > 0 {
        lemma_keys_kept(props, strings, n - 1);
        let before = props_with(props, strings, n - 1);
        let key = txt_parts(strings[n - 1]@).0;
        assert(held(props, key) is Some);
        let k = slot(props, key, 0);
        lemma_slot(props, key, 0);
        assert forall|j: int| 0 <= j < k implies (#[trigger] before[j]).0 != key by {
            assert(props[j].0 != key);
        }
        lemma_slot_is(before, key, 0, k);
        assert(props[k].0 == key);
    }
}

/// Texts that are put in a second time change nothing.
proof fn lemma_texts_again(props: Seq<(Seq<char>, Seq<char>)>, strings: Seq<String>, n: int)
    requires
        0 <= n <= strings.len(),
    ensures
        props_with(props_with(props, strings, n), strings, n) == props_with(props, strings, n),
{
    let once = props_with(props, strings, n);
    let twice = props_with(once, strings, n);
    assert forall|i: int| 0 <= i < n implies held(
        once,
        txt_parts((#[trigger] strings[i])@).0,
    ) is Some by {
        lemma_last_value_held(props, strings, n, txt_parts(strings[i]@).0);
    }
    lemma_keys_kept(once, strings, n);
    assert forall|j: int| 0 <= j < once.len() implies #[trigger] twice[j] == once[j] by {
        let key = once[j].0;
        if slot(once, key, 0) == j {
            assert forall|i: int| 0 <= i < j implies (#[trigger] twice[i]).0 != key by {
                lemma_slot(once, key, 0);
                assert(once[i].0 != key);
            }
            lemma_slot_is(twice, key, 0, j);
            lemma_last_value_held(props, strings, n, key);
            lemma_last_value_held(once, strings, n, key);
        }
    }
    assert(twice =~= once);
}

/// An event of one instance leaves every other instance as it was; in particular instances of
/// different services stay apart though they have the same name.
pub proof fn law_instances_stay_apart(
    instances: InstancesModel,
    event: BrowseEvent,
    other: (usize, Seq<char>),
)
    requires
        match event {
            BrowseEvent::Instance { service_idx, full_name } => other != (
                service_idx,
                folded(full_name@),
            ),
            BrowseEvent::Srv { service_idx, full_name, .. } => other != (
                service_idx,
                folded(full_name@),
            ),
            BrowseEvent::Txt { service_idx, full_name, .. } => other != (
                service_idx,
                folded(full_name@),
            ),
            BrowseEvent::Address { .. } => true,
        },
    ensures
        held(instances_after(instances, event), other) == held(instances, other),
{
    match event {
        BrowseEvent::Instance { service_idx, full_name } => {
            let key = (service_idx, folded(full_name@));
            law_stored_then_held(
                instances,
                key,
                known_or_fresh(instances, key, full_name@),
                other,
            );
        },
        BrowseEvent::Srv { service_idx, full_name, target, port } => {
            let key = (service_idx, folded(full_name@));
            let state = known_or_fresh(instances, key, full_name@);
            law_stored_then_held(
                instances,
                key,
                InstanceModel {
                    port: Some(port),
                    hostname: if target@.len() > 0 {
                        Some(target@)
                    } else {
                        state.hostname
                    },
                    ..state
                },
                other,
            );
        },
        BrowseEvent::Txt { service_idx, full_name, strings } => {
            let key = (service_idx, folded(full_name@));
            let state = known_or_fresh(instances, key, full_name@);
            law_stored_then_held(
                instances,
                key,
                InstanceModel {
                    props: props_with(state.props, strings@, strings@.len() as int),
                    ..state
                },
                other,
            );
        },
        BrowseEvent::Address { .. } => {},
    }
}

// ---------------------------------------------------------------------------
// Browsing
// ---------------------------------------------------------------------------

/// Whether a request was accepted.
pub fn request_accepted(status: i32) -> (r: bool)
    ensures
        r == (status == ERROR_SUCCESS || status == DNS_REQUEST_PENDING),
{
    status == ERROR_SUCCESS || status == DNS_REQUEST_PENDING
}

/// Browsing fails where no service could be browsed.
pub fn browse_started(accepted: usize) -> (r: Result<(), PlumeError>)
    ensures
        match r {
            Ok(_) => accepted > 0,
            Err(PlumeError::Other(m)) => accepted == 0 && m@
                == "DnsServiceBrowse failed for every service type"@,
            Err(_) => false,
        },
{
    if accepted == 0 {
        Err(PlumeError::Other("DnsServiceBrowse failed for every service type".to_string()))
    } else {
        Ok(())
    }
}

/// How long to wait for the next event, in nanoseconds; none once the deadline has come.
pub fn next_wait(now: u128, deadline: u128) -> (r: Option<u128>)
    ensures
        r == crate::browse::wait_until(now, deadline),
{
    if now >= deadline {
        None
    } else if deadline - now < POLL_INTERVAL {
        Some(deadline - now)
    } else {
        Some(POLL_INTERVAL)
    }
}

/// Whether browsing has gone quiet: something was found, and nothing new came for a while.
pub fn browse_is_quiet(found_any: bool, since_progress: u128) -> (r: bool)
    ensures
        r == (found_any && since_progress >= BROWSE_QUIET_PERIOD),
{
    found_any && since_progress >= BROWSE_QUIET_PERIOD
}

/// What is known after the first `n` events.
pub open spec fn instances_after_all(
    instances: InstancesModel,
    events: Seq<BrowseEvent>,
    n: int,
) -> InstancesModel
    decreases n,
{
    if n <= 0 {
        instances
    } else {
        instances_after(instances_after_all(instances, events, n - 1), events[n - 1])
    }
}

/// What is known of hosts after the first `n` events.
pub open spec fn hosts_after_all(hosts: HostsModel, events: Seq<BrowseEvent>, n: int) -> HostsModel
    decreases n,
{
    if n <= 0 {
        hosts
    } else {
        hosts_after(hosts_after_all(hosts, events, n - 1), events[n - 1])
    }
}

/// Takes over the events that are left once browsing has ended.
pub fn drain_browse_events(
    events: Vec<BrowseEvent>,
    instances: &mut Instances,
    host_addresses: &mut HostAddresses,
)
    ensures
        final(instances)@ == instances_after_all(
            old(instances)@,
            events@,
            events@.len() as int,
        ),
        final(host_addresses)@ == hosts_after_all(
            old(host_addresses)@,
            events@,
            events@.len() as int,
        ),
{
    let ghost all = events@;
    let mut rest: Vec<BrowseEvent> = events;
    let ghost mut n: int = 0;
    proof {
        assert(all.skip(0) =~= all);
    }
    while rest.len() > 0
        invariant
            0 <= n <= all.len(),
            rest@ == all.skip(n),
            instances@ == instances_after_all(old(instances)@, all, n),
            host_addresses@ == hosts_after_all(old(host_addresses)@, all, n),
        decreases rest@.len(),
    {
        let event: BrowseEvent = rest.remove(0);
        proof {
            assert(event == all[n]);
            assert(rest@ =~= all.skip(n + 1));
            n = n + 1;
        }
        let _ = apply_browse_event(event, instances, host_addresses);
    }
}

// ---------------------------------------------------------------------------
// Resolving
// ---------------------------------------------------------------------------

/// What resolving one instance gave.
#[derive(Debug)]
pub struct ResolveOutcome {
    pub hostname: String,
    pub port: u16,
    pub props: Table<String, String>,
    pub addresses: Vec<IpAddress>,
}

/// The properties among the first `n` pairs: those with a key, the last value of each.
pub open spec fn paired_props(pairs: Seq<(String, String)>, n: int) -> Seq<(Seq<char>, Seq<char>)>
    decreases n,
{
    if n <= 0 {
        seq![]
    } else {
        let head = paired_props(pairs, n - 1);
        if pairs[n - 1].0@.len() == 0 {
            head
        } else {
            stored(head, pairs[n - 1].0@, pairs[n - 1].1@)
        }
    }
}

/// The outcome of resolving, from the pairs of keys and values that came with it. No more than
/// [`MAX_PROPERTIES`] pairs are read.
pub fn copy_instance(
    hostname: String,
    port: u16,
    pairs: Vec<(String, String)>,
    addresses: Vec<IpAddress>,
) -> (r: ResolveOutcome)
    ensures
        r.hostname == hostname,
        r.port == port,
        r.addresses == addresses,
        r.props@ == paired_props(
            pairs@,
            if pairs@.len() < MAX_PROPERTIES {
                pairs@.len() as int
            } else {
                MAX_PROPERTIES as int
            },
        ),
{
    let mut props: Table<String, String> = Table::new();
    let mut i: usize = 0;
    while i < pairs.len() && i < MAX_PROPERTIES
        invariant
            i <= pairs@.len(),
            i <= MAX_PROPERTIES,
            props@ == paired_props(pairs@, i as int),
        decreases pairs@.len() - i,
    {
        if !blank(&pairs[i].0) {
            props.insert(pairs[i].0.clone(), pairs[i].1.clone());
        }
        i += 1;
    }
    ResolveOutcome { hostname, port, props, addresses }
}

/// An instance needs resolving while its port or its properties are missing.
pub open spec fn needs_resolving(state: InstanceModel) -> bool {
    state.port is None || state.props.len() == 0
}

/// The keys of the first `n` instances that need resolving.
pub open spec fn unresolved(instances: InstancesModel, n: int) -> Seq<(usize, Seq<char>)>
    decreases n,
{
    if n <= 0 {
        seq![]
    } else {
        let head = unresolved(instances, n - 1);
        if needs_resolving(instances[n - 1].1) {
            head.push(instances[n - 1].0)
        } else {
            head
        }
    }
}

/// The contents of candidates.
pub open spec fn candidate_names(candidates: Seq<(usize, String)>) -> Seq<(usize, Seq<char>)> {
    candidates.map_values(|c: (usize, String)| (c.0, c.1@))
}

/// `ordered` are the instances that need resolving, in the order of resolving.
pub open spec fn resolve_order(
    service_types: Seq<Seq<char>>,
    instances: InstancesModel,
    ordered: Seq<(usize, String)>,
) -> bool {
    &&& in_order(candidate_keys(service_types, ordered))
    &&& candidate_names(ordered).to_multiset() == unresolved(
        instances,
        instances.len() as int,
    ).to_multiset()
}

/// The first of `ordered`, as many as are resolved in one scan.
pub open spec fn resolve_batch(ordered: Seq<(usize, String)>) -> Seq<(usize, String)> {
    ordered.take(
        if ordered.len() < MAX_RESOLVES {
            ordered.len() as int
        } else {
            MAX_RESOLVES as int
        },
    )
}

/// The instances that are resolved in this scan: those that need it, in the order of resolving, as
/// far as the limit goes.
pub fn pending_resolves(instances: &Instances, service_types: &Vec<String>) -> (r: Vec<
    (usize, String),
>)
    ensures
        exists|ordered: Seq<(usize, String)>| #[trigger]
            resolve_order(texts(service_types@), instances@, ordered) && r@ == resolve_batch(
                ordered,
            ),
{
    let mut candidates: Vec<(usize, String)> = Vec::new();
    let mut i: usize = 0;
    proof {
        assert(candidate_names(candidates@) =~= unresolved(instances@, 0));
    }
    while i < instances.entries.len()
        invariant
            i <= instances.entries@.len(),
            candidate_names(candidates@) == unresolved(instances@, i as int),
        decreases instances.entries@.len() - i,
    {
        let entry: &((usize, String), InstanceState) = &instances.entries[i];
        let ghost before = candidates@;
        proof {
            assert(instances@[i as int] == (entry.0.model(), entry.1@));
            assert(entry.1.props@.len() == entry.1.props.entries@.len());
        }
        if entry.1.port.is_none() || entry.1.props.entries.len() == 0 {
            candidates.push((entry.0.0, entry.0.1.clone()));
            proof {
                assert(candidate_names(candidates@) =~= candidate_names(before).push(
                    (entry.0.0, entry.0.1@),
                ));
            }
        }
        i += 1;
    }
    let ghost collected = candidates@;
    let mut pending: Vec<(usize, String)> = order_resolve_candidates(candidates, service_types);
    let ghost ordered = pending@;
    proof {
        crate::sort::lemma_mapped_multiset(
            ordered,
            collected,
            |c: (usize, String)| (c.0, c.1@),
        );
        assert(resolve_order(texts(service_types@), instances@, ordered));
    }
    if pending.len() > MAX_RESOLVES {
        pending.truncate(MAX_RESOLVES);
    }
    proof {
        assert(pending@ =~= resolve_batch(ordered));
    }
    pending
}

/// Properties with those of `more` that are not there yet, among its first `n`.
pub open spec fn props_filled(
    props: Seq<(Seq<char>, Seq<char>)>,
    more: Seq<(Seq<char>, Seq<char>)>,
    n: int,
) -> Seq<(Seq<char>, Seq<char>)>
    decreases n,
{
    if n <= 0 {
        props
    } else {
        let head = props_filled(props, more, n - 1);
        match held(head, more[n - 1].0) {
            Some(_) => head,
            None => stored(head, more[n - 1].0, more[n - 1].1),
        }
    }
}

/// The state of an instance after resolving it. A missing host or port leaves what was known.
pub open spec fn resolved_state(state: InstanceModel, outcome: ResolveOutcome) -> InstanceModel {
    InstanceModel {
        hostname: if outcome.hostname@.len() > 0 {
            Some(outcome.hostname@)
        } else {
            state.hostname
        },
        port: if outcome.port != 0 {
            Some(outcome.port)
        } else {
            state.port
        },
        props: props_filled(state.props, outcome.props@, outcome.props@.len() as int),
        resolved: addresses(outcome.addresses@),
        ..state
    }
}

/// The instances after resolving the one at index `idx` of the batch.
pub open spec fn instances_resolved(
    instances: InstancesModel,
    pending: Seq<(usize, String)>,
    idx: usize,
    outcome: ResolveOutcome,
) -> InstancesModel {
    if idx < pending.len() {
        let key = (pending[idx as int].0, pending[idx as int].1@);
        match held(instances, key) {
            Some(state) => stored(instances, key, resolved_state(state, outcome)),
            None => instances,
        }
    } else {
        instances
    }
}

/// Takes over what resolving the instance at index `idx` of the batch gave.
pub fn apply_resolve_outcome(
    instances: &mut Instances,
    pending: &Vec<(usize, String)>,
    idx: usize,
    outcome: ResolveOutcome,
)
    ensures
        final(instances)@ == instances_resolved(old(instances)@, pending@, idx, outcome),
{
    if idx >= pending.len() {
        return;
    }
    let key: (usize, String) = (pending[idx].0, pending[idx].1.clone());
    let mut state: InstanceState = match instances.find(&key) {
        Some(state) => state.duplicate(),
        None => {
            return;
        },
    };
    let ghost start = state@;
    let mut props: Table<String, String> = duplicate_props(&state.props);
    let mut i: usize = 0;
    let ghost more = outcome.props@;
    while i < outcome.props.entries.len()
        invariant
            i <= outcome.props.entries@.len(),
            more == outcome.props@,
            props@ == props_filled(start.props, more, i as int),
        decreases outcome.props.entries@.len() - i,
    {
        let entry: &(String, String) = &outcome.props.entries[i];
        proof {
            assert(more[i as int] == (entry.0@, entry.1@));
        }
        if props.find(&entry.0).is_none() {
            props.insert(entry.0.clone(), entry.1.clone());
        }
        i += 1;
    }
    state.props = props;
    if !blank(&outcome.hostname) {
        state.hostname = Some(outcome.hostname);
    }
    if outcome.port != 0 {
        state.port = Some(outcome.port);
    }
    state.resolved_addresses = outcome.addresses;
    instances.insert(key, state);
}

/// The instances after the first `n` outcomes.
pub open spec fn instances_all_resolved(
    instances: InstancesModel,
    pending: Seq<(usize, String)>,
    outcomes: Seq<(usize, ResolveOutcome)>,
    n: int,
) -> InstancesModel
    decreases n,
{
    if n <= 0 {
        instances
    } else {
        instances_resolved(
            instances_all_resolved(instances, pending, outcomes, n - 1),
            pending,
            outcomes[n - 1].0,
            outcomes[n - 1].1,
        )
    }
}

/// Takes over all outcomes that came in for a batch, each with the index it was asked for.
pub fn resolve_stage(
    mut instances: Instances,
    pending: &Vec<(usize, String)>,
    outcomes: Vec<(usize, ResolveOutcome)>,
) -> (r: Instances)
    ensures
        r@ == instances_all_resolved(instances@, pending@, outcomes@, outcomes@.len() as int),
{
    let ghost all = outcomes@;
    let ghost start = instances@;
    let mut rest: Vec<(usize, ResolveOutcome)> = outcomes;
    let ghost mut n: int = 0;
    proof {
        assert(all.skip(0) =~= all);
    }
    while rest.len() > 0
        invariant
            0 <= n <= all.len(),
            rest@ == all.skip(n),
            instances@ == instances_all_resolved(start, pending@, all, n),
        decreases rest@.len(),
    {
        let (idx, outcome): (usize, ResolveOutcome) = rest.remove(0);
        proof {
            assert((idx, outcome) == all[n]);
            assert(rest@ =~= all.skip(n + 1));
            n = n + 1;
        }
        apply_resolve_outcome(&mut instances, pending, idx, outcome);
    }
    instances
}

/// Resolving never loses an instance, its port or one of its properties.
pub proof fn law_resolving_keeps_what_is_known(
    instances: InstancesModel,
    pending: Seq<(usize, String)>,
    idx: usize,
    outcome: ResolveOutcome,
    key: (usize, Seq<char>),
    name: Seq<char>,
)
    requires
        held(instances, key) is Some,
    ensures
        held(instances_resolved(instances, pending, idx, outcome), key) matches Some(after) && {
            let before = held(instances, key)->0;
            &&& after.full_name == before.full_name
            &&& before.port is Some ==> after.port is Some
            &&& held(before.props, name) is Some ==> held(after.props, name) == held(
                before.props,
                name,
            )
        },
{
    let before = held(instances, key)->0;
    if idx < pending.len() {
        let at = (pending[idx as int].0, pending[idx as int].1@);
        if let Some(state) = held(instances, at) {
            law_stored_then_held(instances, at, resolved_state(state, outcome), key);
            lemma_filling_keeps(
                state.props,
                outcome.props@,
                outcome.props@.len() as int,
                name,
            );
        }
    }
}

proof fn lemma_filling_keeps(
    props: Seq<(Seq<char>, Seq<char>)>,
    more: Seq<(Seq<char>, Seq<char>)>,
    n: int,
    name: Seq<char>,
)
    requires
        0 <= n <= more.len(),
    ensures
        held(props, name) is Some ==> held(props_filled(props, more, n), name) == held(props, name),
    decreases n,
{
    if n > 0 {
        lemma_filling_keeps(props, more, n - 1, name);
        let head = props_filled(props, more, n - 1);
        law_stored_then_held(head, more[n - 1].0, more[n - 1].1, name);
    }
}

// ---------------------------------------------------------------------------
// Scans
// ---------------------------------------------------------------------------

/// A scan by way of the resolver of the operating system.
pub struct WindowsDnsSdDiscovery {
    pub service_types: Vec<String>,
}

/// The scanned services as owned texts.
pub fn owned_service_types() -> (r: Vec<String>)
    ensures
        texts(r@) == scanned_services(),
{
    let names: Vec<&'static str> = all_scanned_service_types();
    let ghost shown = names@.map_values(|s: &'static str| s@);
    let mut r: Vec<String> = Vec::new();
    let mut i: usize = 0;
    while i < names.len()
        invariant
            i <= names@.len(),
            shown == names@.map_values(|s: &'static str| s@),
            texts(r@) =~= shown.take(i as int),
        decreases names@.len() - i,
    {
        let ghost before = r@;
        r.push(names[i].to_string());
        i += 1;
        proof {
            assert(texts(r@) =~= texts(before).push(shown[i - 1]));
        }
    }
    proof {
        assert(shown.take(shown.len() as int) =~= shown);
    }
    r
}

impl WindowsDnsSdDiscovery {
    pub fn new() -> (r: WindowsDnsSdDiscovery)
        ensures
            texts(r.service_types@) == scanned_services(),
    {
        WindowsDnsSdDiscovery { service_types: owned_service_types() }
    }
}

impl Default for WindowsDnsSdDiscovery {
    fn default() -> (r: WindowsDnsSdDiscovery)
        ensures
            texts(r.service_types@) == scanned_services(),
    {
        WindowsDnsSdDiscovery::new()
    }
}

impl View for DiscoveredDevice {
    type V = DiscoveredDevice;

    open spec fn view(&self) -> DiscoveredDevice {
        *self
    }
}

/// The addresses of an instance: those that resolving it gave, and those of its host only where it
/// gave none.
pub open spec fn known_addresses(resolved: Seq<IpModel>, of_host: Seq<IpModel>) -> Seq<IpModel> {
    if resolved.len() > 0 {
        resolved
    } else {
        of_host
    }
}

/// The host name of an instance; empty where it is not known.
pub open spec fn host_of(state: InstanceModel) -> Seq<char> {
    match state.hostname {
        Some(h) => h,
        None => seq![],
    }
}

/// `device` stands for the instance `state` of the service `service`.
pub open spec fn instance_device(
    state: InstanceModel,
    service: Seq<char>,
    hosts: HostsModel,
    device: DiscoveredDevice,
) -> bool {
    let host = host_of(state);
    let instance = crate::discovery::instance_part(state.full_name, service);
    &&& device.name@ == crate::discovery::name_in(host, state.props, instance)
    &&& device.hostname@ == crate::discovery::short_host(host)
    &&& device.udid is None
    &&& exists|pool: Seq<IpAddress>|
        #![trigger addresses(pool)]
        addresses(pool) == known_addresses(state.resolved, addresses_of(hosts, host))
            && crate::discovery::best_text(pool, device.ip_address)
    &&& device.port == state.port
    &&& device.device_type == crate::discovery::type_in(state.props)
    &&& device.connection_type == crate::discovery::ConnectionType::WiFi
    &&& device.is_paired == crate::text::has_text(service, "mobdev2"@)
    &&& opt_text(device.product_type) == crate::discovery::first_value(
        state.props,
        crate::discovery::model_keys(),
        0,
    )
    &&& opt_text(device.os_version) == crate::discovery::first_value(
        state.props,
        seq!["OSVersion"@, "osVersion"@],
        0,
    )
    &&& device.service_type@ == service
}

/// The device that an instance with a port stands for.
fn device_of_instance(
    state: &InstanceState,
    service_type: &str,
    hosts: &HostAddresses,
) -> (r: DiscoveredDevice)
    ensures
        instance_device(state@, service_type@, hosts@, r),
{
    let hostname: String = match &state.hostname {
        Some(h) => h.clone(),
        None => {
            let none: String = String::new();
            proof {
                assert(none@ =~= seq![]);
            }
            none
        },
    };
    let instance_name: String = parse_instance_name(state.full_name.as_str(), service_type);
    let key: String = fold_name(hostname.as_str());
    let none: Vec<IpAddress> = Vec::new();
    let of_host: &Vec<IpAddress> = match hosts.find(&key) {
        Some(list) => &list.items,
        None => &none,
    };
    proof {
        if held(hosts@, key@) is None {
            assert(addresses(of_host@) =~= seq![]);
        }
        assert(addresses(of_host@) == addresses_of(hosts@, hostname@));
        assert(addresses(state.resolved_addresses@).len() == state.resolved_addresses@.len());
    }
    let pool: &Vec<IpAddress> = if state.resolved_addresses.len() > 0 {
        &state.resolved_addresses
    } else {
        of_host
    };
    build_device(
        instance_name.as_str(),
        hostname.as_str(),
        service_type,
        state.port,
        pool,
        &state.props,
    )
}

/// The key under which the device of an instance is collected.
pub open spec fn device_key(state: InstanceModel, service: Seq<char>) -> (Seq<char>, Seq<char>) {
    let host = crate::discovery::short_host(host_of(state));
    (
        lower(
            if host.len() == 0 {
                crate::discovery::instance_part(state.full_name, service)
            } else {
                host
            },
        ),
        service,
    )
}

/// The instance at index `i` has a service and a port.
pub open spec fn is_complete(
    service_types: Seq<Seq<char>>,
    instances: InstancesModel,
    i: int,
) -> bool {
    instances[i].0.0 < service_types.len() && instances[i].1.port is Some
}

/// The devices of the first `n` instances that are complete; of several with one key the last
/// counts. The device of the instance at index `i` is `devices[i]`.
pub open spec fn collected(
    service_types: Seq<Seq<char>>,
    instances: InstancesModel,
    devices: Seq<DiscoveredDevice>,
    n: int,
) -> Seq<((Seq<char>, Seq<char>), DiscoveredDevice)>
    decreases n,
{
    if n <= 0 {
        seq![]
    } else {
        let head = collected(service_types, instances, devices, n - 1);
        if is_complete(service_types, instances, n - 1) {
            let service = service_types[instances[n - 1].0.0 as int];
            stored(head, device_key(instances[n - 1].1, service), devices[n - 1])
        } else {
            head
        }
    }
}

/// `devices` holds, at the index of each complete instance, the device that it stands for.
pub open spec fn stand_for(
    service_types: Seq<Seq<char>>,
    instances: InstancesModel,
    hosts: HostsModel,
    devices: Seq<DiscoveredDevice>,
) -> bool {
    forall|i: int|
        0 <= i < devices.len() && is_complete(service_types, instances, i) ==> instance_device(
            instances[i].1,
            service_types[instances[i].0.0 as int],
            hosts,
            #[trigger] devices[i],
        )
}

/// The devices of a table, in its order.
pub open spec fn devices_in(found: Seq<((Seq<char>, Seq<char>), DiscoveredDevice)>) -> Seq<
    DiscoveredDevice,
> {
    found.map_values(|e: ((Seq<char>, Seq<char>), DiscoveredDevice)| e.1)
}

fn collect_found(
    service_types: &Vec<String>,
    instances: &Instances,
    host_addresses: &HostAddresses,
) -> (r: (Table<(String, String), DiscoveredDevice>, Ghost<Seq<DiscoveredDevice>>))
    ensures
        r.1@.len() == instances@.len(),
        stand_for(texts(service_types@), instances@, host_addresses@, r.1@),
        r.0@ == collected(texts(service_types@), instances@, r.1@, instances@.len() as int),
{
    let ghost services = texts(service_types@);
    let ghost mut devices: Seq<DiscoveredDevice> = seq![];
    let mut found: Table<(String, String), DiscoveredDevice> = Table::new();
    let mut i: usize = 0;
    while i < instances.entries.len()
        invariant
            i <= instances.entries@.len(),
            services == texts(service_types@),
            devices.len() == i,
            stand_for(services, instances@, host_addresses@, devices),
            found@ == collected(services, instances@, devices, i as int),
        decreases instances.entries@.len() - i,
    {
        let entry: &((usize, String), InstanceState) = &instances.entries[i];
        let idx: usize = entry.0.0;
        let state: &InstanceState = &entry.1;
        let ghost before = devices;
        proof {
            assert(instances@[i as int] == (entry.0.model(), entry.1@));
        }
        if idx < service_types.len() && state.port.is_some() {
            let service: &str = service_types[idx].as_str();
            proof {
                assert(services[idx as int] == service@);
            }
            let hostname: String = match &state.hostname {
                Some(h) => h.clone(),
                None => {
                    let none: String = String::new();
                    proof {
                        assert(none@ =~= seq![]);
                    }
                    none
                },
            };
            let instance_name: String = parse_instance_name(state.full_name.as_str(), service);
            let device: DiscoveredDevice = device_of_instance(state, service, host_addresses);
            let key: (String, String) = dedup_key(
                hostname.as_str(),
                instance_name.as_str(),
                service,
            );
            proof {
                devices = devices.push(device);
                assert(key.model() == device_key(state@, service@));
            }
            found.insert(key, device);
        } else {
            proof {
                devices = devices.push(arbitrary());
            }
        }
        proof {
            lemma_collected_prefix(services, instances@, before, devices, i as int);
            assert forall|k: int|
                0 <= k < devices.len() && is_complete(services, instances@, k) implies instance_device(
                instances@[k].1,
                services[instances@[k].0.0 as int],
                host_addresses@,
                #[trigger] devices[k],
            ) by {
                if k < before.len() {
                    assert(devices[k] == before[k]);
                }
            }
        }
        i += 1;
    }
    (found, Ghost(devices))
}

/// Only the devices of the instances that are looked at matter.
proof fn lemma_collected_prefix(
    service_types: Seq<Seq<char>>,
    instances: InstancesModel,
    a: Seq<DiscoveredDevice>,
    b: Seq<DiscoveredDevice>,
    n: int,
)
    requires
        0 <= n <= a.len(),
        n <= b.len(),
        forall|i: int| 0 <= i < n ==> a[i] == b[i],
    ensures
        collected(service_types, instances, a, n) == collected(service_types, instances, b, n),
    decreases n,
{
    if n > 0 {
        lemma_collected_prefix(service_types, instances, a, b, n - 1);
    }
}

/// `r` are the devices that a scan found: those of the complete instances, without the metadata.
pub open spec fn scan_result(
    service_types: Seq<Seq<char>>,
    instances: InstancesModel,
    devices: Seq<DiscoveredDevice>,
    r: Seq<DiscoveredDevice>,
) -> bool {
    let found = devices_in(
        collected(service_types, instances, devices, instances.len() as int),
    );
    r == enriched_list(found, found.len() as int)
}

/// The devices that a scan found.
pub fn scan(
    service_types: &Vec<String>,
    instances: &Instances,
    host_addresses: &HostAddresses,
) -> (r: Vec<DiscoveredDevice>)
    ensures
        exists|devices: Seq<DiscoveredDevice>|
            devices.len() == instances@.len() && #[trigger] stand_for(
                texts(service_types@),
                instances@,
                host_addresses@,
                devices,
            ) && scan_result(texts(service_types@), instances@, devices, r@),
{
    let (found, devices_of): (
        Table<(String, String), DiscoveredDevice>,
        Ghost<Seq<DiscoveredDevice>>,
    ) = collect_found(service_types, instances, host_addresses);
    let ghost model = found@;
    let mut devices: Vec<DiscoveredDevice> = Vec::new();
    let mut i: usize = 0;
    while i < found.entries.len()
        invariant
            i <= found.entries@.len(),
            model == found@,
            devices@ == devices_in(model).take(i as int),
        decreases found.entries@.len() - i,
    {
        devices.push(found.entries[i].1.clone());
        proof {
            assert(devices_in(model)[i as int] == found.entries@[i as int].1);
        }
        i += 1;
        proof {
            assert(devices@ =~= devices_in(model).take(i as int));
        }
    }
    proof {
        assert(devices_in(model).take(model.len() as int) =~= devices_in(model));
    }
    let r: Vec<DiscoveredDevice> = enrich_and_filter(devices);
    proof {
        assert(scan_result(texts(service_types@), instances@, devices_of@, r@));
    }
    r
}

// ---------------------------------------------------------------------------
// What is learned
// ---------------------------------------------------------------------------

/// A text of a service is a key and a value around its first equals sign, or a key alone.
pub proof fn law_texts_are_keys_and_values(key: Seq<char>, value: Seq<char>)
    requires
        !key.contains('='),
    ensures
        txt_parts(key + seq!['='] + value) == (key, value),
        txt_parts(key) == (key, Seq::<char>::empty()),
{
    let all = key + seq!['='] + value;
    assert forall|i: int| 0 <= i < key.len() implies all[i] != '=' by {
        assert(key.contains(key[i]));
    }
    lemma_equals_sign(all, 0, key.len() as int);
    assert(all.take(key.len() as int) =~= key);
    assert(all.skip(key.len() as int + 1) =~= value);
    assert forall|i: int| 0 <= i < key.len() implies key[i] != '=' by {
        assert(key.contains(key[i]));
    }
    lemma_equals_sign(key, 0, key.len() as int);
}

proof fn lemma_equals_sign(s: Seq<char>, from: int, at: int)
    requires
        0 <= from <= at <= s.len(),
        forall|i: int| from <= i < at ==> s[i] != '=',
        at < s.len() ==> s[at] == '=',
    ensures
        index_or_len(s, '=', from) == at,
    decreases at - from,
{
    if from < at {
        lemma_equals_sign(s, from + 1, at);
    }
}

/// Names are the same whatever the case of their letters and whatever dot ends them.
pub proof fn law_names_are_folded(name: Seq<char>)
    ensures
        folded(name.push('.')) == folded(name),
        name.len() > 0 && name.last() != '.' ==> folded(name) == lower(name),
{
    assert(name.push('.').drop_last() =~= name);
}

/// What an event tells of an instance is then known of it, and the rest stays as it was.
pub proof fn law_events_are_remembered(instances: InstancesModel, event: BrowseEvent)
    ensures
        match event {
            BrowseEvent::Instance { service_idx, full_name } => {
                let key = (service_idx, folded(full_name@));
                held(instances_after(instances, event), key) matches Some(s) && (held(
                    instances,
                    key,
                ) matches Some(before) ==> s == before)
            },
            BrowseEvent::Srv { service_idx, full_name, target, port } => {
                let key = (service_idx, folded(full_name@));
                held(instances_after(instances, event), key) matches Some(s) && s.port == Some(port)
                    && (target@.len() > 0 ==> s.hostname == Some(target@)) && (held(
                    instances,
                    key,
                ) matches Some(before) ==> s.props == before.props && s.resolved == before.resolved
                    && (target@.len() == 0 ==> s.hostname == before.hostname))
            },
            BrowseEvent::Txt { service_idx, full_name, strings } => {
                let key = (service_idx, folded(full_name@));
                held(instances_after(instances, event), key) matches Some(s) && (held(
                    instances,
                    key,
                ) matches Some(before) ==> s.port == before.port && s.hostname == before.hostname)
                    && (strings@.len() > 0 ==> held(s.props, txt_parts(strings@.last()@).0) == Some(
                    txt_parts(strings@.last()@).1,
                ))
            },
            BrowseEvent::Address { .. } => instances_after(instances, event) == instances,
        },
{
    match event {
        BrowseEvent::Instance { service_idx, full_name } => {
            let key = (service_idx, folded(full_name@));
            law_stored_then_held(
                instances,
                key,
                known_or_fresh(instances, key, full_name@),
                key,
            );
        },
        BrowseEvent::Srv { service_idx, full_name, target, port } => {
            let key = (service_idx, folded(full_name@));
            let state = known_or_fresh(instances, key, full_name@);
            let next = InstanceModel {
                port: Some(port),
                hostname: if target@.len() > 0 {
                    Some(target@)
                } else {
                    state.hostname
                },
                ..state
            };
            law_stored_then_held(instances, key, next, key);
        },
        BrowseEvent::Txt { service_idx, full_name, strings } => {
            let key = (service_idx, folded(full_name@));
            let state = known_or_fresh(instances, key, full_name@);
            let n = strings@.len() as int;
            let next = InstanceModel { props: props_with(state.props, strings@, n), ..state };
            law_stored_then_held(instances, key, next, key);
            if n > 0 {
                let parts = txt_parts(strings@[n - 1]@);
                law_stored_then_held(
                    props_with(state.props, strings@, n - 1),
                    parts.0,
                    parts.1,
                    parts.0,
                );
            }
        },
        BrowseEvent::Address { .. } => {},
    }
}

/// A service record is news exactly where it tells of an instance, a port or a host that was not
/// known, and an address exactly where its host did not have it.
pub proof fn law_what_is_news(
    instances: InstancesModel,
    hosts: HostsModel,
    service_idx: usize,
    full_name: String,
    target: String,
    port: u16,
    addr: IpAddress,
)
    ensures
        is_news(
            instances,
            hosts,
            BrowseEvent::Srv { service_idx, full_name, target, port },
        ) <==> match held(instances, (service_idx, folded(full_name@))) {
            None => true,
            Some(s) => s.port != Some(port) || (target@.len() > 0 && s.hostname != Some(target@)),
        },
        is_news(instances, hosts, BrowseEvent::Instance { service_idx, full_name }) <==> held(
            instances,
            (service_idx, folded(full_name@)),
        ) is None,
        is_news(instances, hosts, BrowseEvent::Address { host: target, addr }) <==> match held(
            hosts,
            folded(target@),
        ) {
            None => true,
            Some(list) => !list.contains(addr@),
        },
{
    let key = (service_idx, folded(full_name@));
    let state = known_or_fresh(instances, key, full_name@);
    let next = InstanceModel {
        port: Some(port),
        hostname: if target@.len() > 0 {
            Some(target@)
        } else {
            state.hostname
        },
        ..state
    };
    law_stored_again(instances, key, next);
    law_stored_again(instances, key, state);
    if held(instances, key) matches Some(s) && s.port == Some(port) && (target@.len() == 0
        || s.hostname == Some(target@)) {
        assert(next == state);
    }
    let list = addresses_of(hosts, target@);
    law_stored_again(hosts, folded(target@), list);
    law_stored_again(hosts, folded(target@), list.push(addr@));
    assert(list.push(addr@).len() == list.len() + 1);
}

/// An address of a host is known of it once it was told, and those that were known stay.
pub proof fn law_addresses_are_remembered(hosts: HostsModel, host: String, addr: IpAddress)
    ensures
        ({
            let after = hosts_after(hosts, BrowseEvent::Address { host, addr });
            &&& addresses_of(after, host@).contains(addr@)
            &&& forall|i: int|
                0 <= i < addresses_of(hosts, host@).len() ==> addresses_of(after, host@).contains(
                    #[trigger] addresses_of(hosts, host@)[i],
                )
        }),
{
    let list = addresses_of(hosts, host@);
    let next = if list.contains(addr@) {
        list
    } else {
        list.push(addr@)
    };
    law_stored_then_held(hosts, folded(host@), next, folded(host@));
    if !list.contains(addr@) {
        assert(next[list.len() as int] == addr@);
    }
    assert forall|i: int| 0 <= i < list.len() implies next.contains(#[trigger] list[i]) by {
        assert(next[i] == list[i]);
    }
}

/// One of the first `n` instances has this key and lacks a port or properties.
pub open spec fn lacks_something(
    instances: InstancesModel,
    n: int,
    key: (usize, Seq<char>),
) -> bool {
    exists|i: int|
        0 <= i < n && (#[trigger] instances[i]).0 == key && (instances[i].1.port is None
            || instances[i].1.props.len() == 0)
}

/// The instances to resolve are those without a port or without properties.
pub proof fn law_incomplete_instances_are_resolved(instances: InstancesModel, n: int)
    requires
        0 <= n <= instances.len(),
    ensures
        forall|i: int|
            0 <= i < n && ((#[trigger] instances[i]).1.port is None || instances[i].1.props.len()
                == 0) ==> unresolved(instances, n).contains(instances[i].0),
        forall|j: int|
            0 <= j < unresolved(instances, n).len() ==> lacks_something(
                instances,
                n,
                #[trigger] unresolved(instances, n)[j],
            ),
    decreases n,
{
    if n > 0 {
        law_incomplete_instances_are_resolved(instances, n - 1);
        let head = unresolved(instances, n - 1);
        let all = unresolved(instances, n);
        assert forall|i: int|
            0 <= i < n && ((#[trigger] instances[i]).1.port is None || instances[i].1.props.len()
                == 0) implies all.contains(instances[i].0) by {
            if i < n - 1 {
                let j = choose|j: int| 0 <= j < head.len() && head[j] == instances[i].0;
                assert(all[j] == instances[i].0);
            } else {
                assert(all[head.len() as int] == instances[i].0);
            }
        }
        assert forall|j: int| 0 <= j < all.len() implies lacks_something(
            instances,
            n,
            #[trigger] all[j],
        ) by {
            if j < head.len() {
                assert(all[j] == head[j]);
                assert(lacks_something(instances, n - 1, head[j]));
                let i = choose|i: int|
                    0 <= i < n - 1 && (#[trigger] instances[i]).0 == head[j] && (
                    instances[i].1.port is None || instances[i].1.props.len() == 0);
                assert(instances[i].0 == all[j]);
            } else {
                assert(instances[n - 1].0 == all[j]);
            }
        }
    }
}

/// What resolving gives is taken over: the host and the port where it tells them, and its addresses.
pub proof fn law_resolving_completes(state: InstanceModel, outcome: ResolveOutcome)
    ensures
        ({
            let after = resolved_state(state, outcome);
            &&& outcome.port != 0 ==> after.port == Some(outcome.port)
            &&& outcome.port == 0 ==> after.port == state.port
            &&& outcome.hostname@.len() > 0 ==> after.hostname == Some(outcome.hostname@)
            &&& outcome.hostname@.len() == 0 ==> after.hostname == state.hostname
            &&& after.resolved == addresses(outcome.addresses@)
            &&& after.full_name == state.full_name
        }),
{
}

/// The services for pairing are resolved before the one for metadata, and that before all others.
pub proof fn law_ranks_of_services(service: Seq<char>)
    ensures
        service_rank("_remotepairing._tcp.local."@) == 0,
        service_rank("_remotepairing-manual-pairing._tcp.local."@) == 0,
        service_rank("_companion-link._tcp.local."@) == 1,
        service != "_remotepairing._tcp.local."@ && service
            != "_remotepairing-manual-pairing._tcp.local."@ && service
            != "_companion-link._tcp.local."@ ==> service_rank(service) == 2,
{
    reveal_strlit("_remotepairing._tcp.local.");
    reveal_strlit("_remotepairing-manual-pairing._tcp.local.");
    reveal_strlit("_companion-link._tcp.local.");
    assert("_remotepairing._tcp.local."@.len() == 26);
    assert("_remotepairing-manual-pairing._tcp.local."@.len() == 41);
    assert("_companion-link._tcp.local."@.len() == 27);
}

/// A device of a scan is reached at an address that resolving it gave, wherever it gave one, and at
/// one of its host otherwise.
pub proof fn law_device_is_reached_where_resolved(
    state: InstanceModel,
    service: Seq<char>,
    hosts: HostsModel,
    device: DiscoveredDevice,
)
    requires
        instance_device(state, service, hosts, device),
        device.ip_address is Some,
    ensures
        state.resolved.len() > 0 ==> state.resolved.contains(device.ip_address->0@),
        state.resolved.len() == 0 ==> addresses_of(hosts, host_of(state)).contains(
            device.ip_address->0@,
        ),
        device.port == state.port,
{
    let pool = choose|pool: Seq<IpAddress>|
        #![trigger addresses(pool)]
        addresses(pool) == known_addresses(state.resolved, addresses_of(hosts, host_of(state)))
            && crate::discovery::best_text(pool, device.ip_address);
    crate::discovery::law_older_addresses_are_preferred(pool, device.ip_address);
    let a = device.ip_address->0;
    let i = choose|i: int| 0 <= i < pool.len() && pool[i] == a;
    assert(addresses(pool)[i] == a@);
}

/// Every instance with a known service and a port has a device in the findings.
pub proof fn law_complete_instances_are_found(
    service_types: Seq<Seq<char>>,
    instances: InstancesModel,
    devices: Seq<DiscoveredDevice>,
    n: int,
    i: int,
)
    requires
        0 <= i < n <= instances.len(),
        instances[i].0.0 < service_types.len(),
        instances[i].1.port is Some,
    ensures
        held(
            collected(service_types, instances, devices, n),
            device_key(instances[i].1, service_types[instances[i].0.0 as int]),
        ) is Some,
    decreases n,
{
    let key = device_key(instances[i].1, service_types[instances[i].0.0 as int]);
    let head = collected(service_types, instances, devices, n - 1);
    if is_complete(service_types, instances, n - 1) {
        let service = service_types[instances[n - 1].0.0 as int];
        let last = device_key(instances[n - 1].1, service);
        law_stored_then_held(head, last, devices[n - 1], key);
        law_stored_then_held(head, last, devices[n - 1], last);
    }
    if i < n - 1 {
        law_complete_instances_are_found(service_types, instances, devices, n - 1, i);
    }
}

/// What a record tells is of its owner and of the service that was asked for; a record without an
/// owner, and a pointer to nothing, tell nothing.
pub proof fn law_what_a_record_tells(record: BrowseRecord, service_idx: usize, event: BrowseEvent)
    requires
        learned(record, service_idx, Some(event)),
    ensures
        event matches BrowseEvent::Instance { service_idx: i, full_name } ==> i == service_idx
            && record.data == RecordData::Pointer(full_name) && full_name@.len() > 0,
        event matches BrowseEvent::Srv { service_idx: i, full_name, target, port } ==> i
            == service_idx && full_name == record.owner && record.owner@.len() > 0 && record.data
            == (RecordData::Service { target, port }),
        event matches BrowseEvent::Txt { service_idx: i, full_name, strings } ==> i == service_idx
            && full_name == record.owner && record.owner@.len() > 0 && strings@.len() > 0,
        event matches BrowseEvent::Address { host, addr } ==> host == record.owner
            && record.owner@.len() > 0 && record.data == RecordData::Address(addr),
{
    if let BrowseEvent::Txt { service_idx: _, full_name: _, strings } = event {
        assert(texts(strings@).len() == strings@.len());
    }
}

/// No record tells more than one thing, and each that tells something is heard.
pub proof fn law_records_are_walked(
    records: Seq<BrowseRecord>,
    n: int,
    service_idx: usize,
    events: Seq<BrowseEvent>,
    i: int,
)
    requires
        0 <= i < n <= records.len(),
        walked(records, n, service_idx, events),
    ensures
        events.len() <= n,
        learned(records[i], service_idx, None) || exists|k: int|
            0 <= k < events.len() && learned(records[i], service_idx, Some(#[trigger] events[k])),
    decreases n,
{
    reveal_with_fuel(walked, 2);
    if learned(records[n - 1], service_idx, None) && walked(records, n - 1, service_idx, events) {
        if n > 1 {
            law_records_are_walked(
                records,
                n - 1,
                service_idx,
                events,
                if i < n - 1 {
                    i
                } else {
                    0
                },
            );
        }
    } else {
        let before = events.drop_last();
        assert(learned(records[n - 1], service_idx, Some(events[events.len() - 1])));
        if n > 1 {
            law_records_are_walked(
                records,
                n - 1,
                service_idx,
                before,
                if i < n - 1 {
                    i
                } else {
                    0
                },
            );
            if i < n - 1 && !learned(records[i], service_idx, None) {
                let k = choose|k: int|
                    0 <= k < before.len() && learned(
                        records[i],
                        service_idx,
                        Some(#[trigger] before[k]),
                    );
                assert(events[k] == before[k]);
            }
        }
    }
}

/// What is known after some events is what is known after all but the last, with the last taken in.
pub proof fn law_events_are_taken_in_turn(
    instances: InstancesModel,
    hosts: HostsModel,
    events: Seq<BrowseEvent>,
    last: BrowseEvent,
)
    ensures
        instances_after_all(instances, events.push(last), events.len() as int + 1)
            == instances_after(
            instances_after_all(instances, events, events.len() as int),
            last,
        ),
        hosts_after_all(hosts, events.push(last), events.len() as int + 1) == hosts_after(
            hosts_after_all(hosts, events, events.len() as int),
            last,
        ),
        instances_after_all(instances, events, 0) == instances,
        hosts_after_all(hosts, events, 0) == hosts,
{
    lemma_earlier_events(instances, hosts, events, events.push(last), events.len() as int);
}

proof fn lemma_earlier_events(
    instances: InstancesModel,
    hosts: HostsModel,
    a: Seq<BrowseEvent>,
    b: Seq<BrowseEvent>,
    n: int,
)
    requires
        0 <= n <= a.len() <= b.len(),
        forall|i: int| 0 <= i < n ==> a[i] == b[i],
    ensures
        instances_after_all(instances, a, n) == instances_after_all(instances, b, n),
        hosts_after_all(hosts, a, n) == hosts_after_all(hosts, b, n),
    decreases n,
{
    if n > 0 {
        lemma_earlier_events(instances, hosts, a, b, n - 1);
    }
}

/// No more services are resolved at a time than are allowed, and those that are stand first in the
/// order.
pub proof fn law_resolving_is_bounded(ordered: Seq<(usize, String)>)
    ensures
        resolve_batch(ordered).len() <= MAX_RESOLVES,
        ordered.len() <= MAX_RESOLVES ==> resolve_batch(ordered) == ordered,
        ordered.len() > MAX_RESOLVES ==> resolve_batch(ordered).len() == MAX_RESOLVES,
        forall|i: int|
            0 <= i < resolve_batch(ordered).len() ==> #[trigger] resolve_batch(ordered)[i]
                == ordered[i],
{
    if ordered.len() <= MAX_RESOLVES {
        assert(resolve_batch(ordered) =~= ordered);
    }
}

/// Services are resolved by the rank of their type, the lowest first.
pub proof fn law_resolving_goes_by_rank(
    service_types: Seq<Seq<char>>,
    instances: InstancesModel,
    ordered: Seq<(usize, String)>,
    i: int,
    j: int,
)
    requires
        resolve_order(service_types, instances, ordered),
        0 <= i < j < ordered.len(),
    ensures
        rank_at(service_types, ordered[i].0) <= rank_at(service_types, ordered[j].0),
        ordered.len() == unresolved(instances, instances.len() as int).len(),
{
    let keys = candidate_keys(service_types, ordered);
    assert(crate::sort::key_le(keys[i], keys[j]));
    assert(keys[i] == candidate_key(service_types, ordered[i]));
    assert(keys[j] == candidate_key(service_types, ordered[j]));
    assert(keys[i][0][0] == rank_at(service_types, ordered[i].0) as int);
    assert(keys[j][0][0] == rank_at(service_types, ordered[j].0) as int);
    candidate_names(ordered).to_multiset_ensures();
    unresolved(instances, instances.len() as int).to_multiset_ensures();
    reveal_with_fuel(crate::sort::ints_le, 2);
}

/// Of the pairs with one key the last counts, and a pair without a key counts for nothing.
pub proof fn law_last_pair_counts(pairs: Seq<(String, String)>, n: int)
    requires
        0 < n <= pairs.len(),
    ensures
        pairs[n - 1].0@.len() > 0 ==> held(paired_props(pairs, n), pairs[n - 1].0@) == Some(
            pairs[n - 1].1@,
        ),
        pairs[n - 1].0@.len() == 0 ==> paired_props(pairs, n) == paired_props(pairs, n - 1),
        paired_props(pairs, n).len() <= n,
    decreases n,
{
    if n > 1 {
        law_last_pair_counts(pairs, n - 1);
    }
    reveal_with_fuel(paired_props, 2);
    let head = paired_props(pairs, n - 1);
    crate::table::lemma_slot(head, pairs[n - 1].0@, 0);
    crate::table::law_stored_then_held(head, pairs[n - 1].0@, pairs[n - 1].1@, seq![]);
}

/// What a device is and runs is told by its own texts, under the first of the keys that has a value.
pub proof fn law_device_tells_what_it_is(
    state: InstanceModel,
    service: Seq<char>,
    hosts: HostsModel,
    device: DiscoveredDevice,
    value: Seq<char>,
)
    requires
        instance_device(state, service, hosts, device),
        value.len() > 0,
    ensures
        held(state.props, "OSVersion"@) == Some(value) ==> opt_text(device.os_version) == Some(value),
        held(state.props, "OSVersion"@) is None && held(state.props, "osVersion"@) == Some(value)
            ==> opt_text(device.os_version) == Some(value),
        held(state.props, "ProductType"@) == Some(value) ==> opt_text(device.product_type) == Some(
            value,
        ),
        held(state.props, "ProductType"@) is None && held(state.props, "model"@) == Some(value)
            ==> opt_text(device.product_type) == Some(value),
        held(state.props, "ProductType"@) is None && held(state.props, "model"@) is None && held(
            state.props,
            "rpMd"@,
        ) == Some(value) ==> opt_text(device.product_type) == Some(value),
        state.props.len() == 0 ==> device.os_version is None && device.product_type is None,
        device.port == state.port,
        device.service_type@ == service,
{
    let os = seq!["OSVersion"@, "osVersion"@];
    let model = crate::discovery::model_keys();
    assert(os[0] == "OSVersion"@ && os[1] == "osVersion"@);
    assert(model[0] == "ProductType"@ && model[1] == "model"@ && model[2] == "rpMd"@);
    reveal_with_fuel(crate::discovery::first_value, 4);
}

} // verus!
