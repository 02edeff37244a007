//! Devices that offer remote pairing on the network.
use crate::error::PlumeError;
use crate::sort::{
    in_order, keys_of, lemma_key_of_two, lemma_text_key, sort_items, text_key, KeyOrder,
};
use crate::table::{held, Table};
use crate::text::{
    chars_at, chars_of, is_suffix, join2, join4, opt_text, same_text, string_of, text_not_after,
    trim_end_char, without_trailing,
};
use vstd::prelude::*;

verus! {

pub const MANUAL_PAIRING_SERVICE: &'static str = "_remotepairing-manual-pairing._tcp.local.";

pub const REMOTE_PAIRING_SERVICE: &'static str = "_remotepairing._tcp.local.";

#[derive(Debug, Clone, Copy, PartialEq, Eq, Structural)]
pub enum ServiceKind {
    /// The device offers to pair and shows a PIN once it is connected to.
    ManualPairing,
    /// The device is paired, though not necessarily with this machine.
    RemotePairing,
}

impl ServiceKind {
    pub fn service_type(self) -> (r: &'static str)
        ensures
            r@ == match self {
                ServiceKind::ManualPairing => MANUAL_PAIRING_SERVICE@,
                ServiceKind::RemotePairing => REMOTE_PAIRING_SERVICE@,
            },
    {
        match self {
            ServiceKind::ManualPairing => MANUAL_PAIRING_SERVICE,
            ServiceKind::RemotePairing => REMOTE_PAIRING_SERVICE,
        }
    }

    /// The kind as it is shown.
    pub open spec fn text(self) -> Seq<char> {
        match self {
            ServiceKind::ManualPairing => "pairable"@,
            ServiceKind::RemotePairing => "paired"@,
        }
    }

    pub fn to_text(&self) -> (r: &'static str)
        ensures
            r@ == self.text(),
    {
        match self {
            ServiceKind::ManualPairing => "pairable",
            ServiceKind::RemotePairing => "paired",
        }
    }
}

/// The two kinds of service have different names.
pub proof fn law_service_types_differ()
    ensures
        MANUAL_PAIRING_SERVICE@ != REMOTE_PAIRING_SERVICE@,
{
    reveal_strlit("_remotepairing-manual-pairing._tcp.local.");
    reveal_strlit("_remotepairing._tcp.local.");
    assert(MANUAL_PAIRING_SERVICE@.len() != REMOTE_PAIRING_SERVICE@.len());
}

// ---------------------------------------------------------------------------
// Addresses
// ---------------------------------------------------------------------------

/// An address of a service, by its number. An IPv6 address belongs to a network interface.
#[derive(Debug, Clone, Copy, PartialEq, Eq, Structural)]
pub enum ServiceAddress {
    V4(u32),
    V6 { address: u128, scope: u32 },
}

/// The IPv4 address can be connected to: it is neither the loopback network nor unspecified.
pub open spec fn usable_v4(a: u32) -> bool {
    a != 0 && !(0x7f00_0000 <= a && a <= 0x7fff_ffff)
}

/// The IPv6 address can be connected to: it is neither the loopback address nor unspecified.
pub open spec fn usable_v6(a: u128) -> bool {
    a != 0 && a != 1
}

/// The address can be connected to.
pub open spec fn usable(a: ServiceAddress) -> bool {
    match a {
        ServiceAddress::V4(n) => usable_v4(n),
        ServiceAddress::V6 { address, .. } => usable_v6(address),
    }
}

/// `a` is preferred to `b`: IPv4 to IPv6, then the lower number, then the lower interface.
pub open spec fn preferred(a: ServiceAddress, b: ServiceAddress) -> bool {
    match (a, b) {
        (ServiceAddress::V4(x), ServiceAddress::V4(y)) => x <= y,
        (ServiceAddress::V4(_), ServiceAddress::V6 { .. }) => true,
        (ServiceAddress::V6 { .. }, ServiceAddress::V4(_)) => false,
        (
            ServiceAddress::V6 { address: x, scope: s },
            ServiceAddress::V6 { address: y, scope: t },
        ) => x < y || (x == y && s <= t),
    }
}

fn is_usable(a: &ServiceAddress) -> (r: bool)
    ensures
        r == usable(*a),
{
    match a {
        ServiceAddress::V4(n) => *n != 0 && !(0x7f00_0000 <= *n && *n <= 0x7fff_ffff),
        ServiceAddress::V6 { address, .. } => *address != 0 && *address != 1,
    }
}

fn is_preferred(a: &ServiceAddress, b: &ServiceAddress) -> (r: bool)
    ensures
        r == preferred(*a, *b),
{
    match (a, b) {
        (ServiceAddress::V4(x), ServiceAddress::V4(y)) => *x <= *y,
        (ServiceAddress::V4(_), ServiceAddress::V6 { .. }) => true,
        (ServiceAddress::V6 { .. }, ServiceAddress::V4(_)) => false,
        (
            ServiceAddress::V6 { address: x, scope: s },
            ServiceAddress::V6 { address: y, scope: t },
        ) => *x < *y || (*x == *y && *s <= *t),
    }
}

/// `r` is the preferred one of the addresses that can be connected to.
pub open spec fn is_best(addresses: Seq<ServiceAddress>, r: Option<ServiceAddress>) -> bool {
    match r {
        Some(a) => addresses.contains(a) && usable(a) && forall|i: int|
            0 <= i < addresses.len() && usable(#[trigger] addresses[i]) ==> preferred(
                a,
                addresses[i],
            ),
        None => forall|i: int| 0 <= i < addresses.len() ==> !usable(#[trigger] addresses[i]),
    }
}

/// The address to connect to. It does not depend on the order of the addresses, so repeated scans
/// agree.
pub fn best_address(addresses: &Vec<ServiceAddress>) -> (r: Option<ServiceAddress>)
    ensures
        is_best(addresses@, r),
{
    let mut best: Option<ServiceAddress> = None;
    let mut i: usize = 0;
    while i < addresses.len()
        invariant
            i <= addresses@.len(),
            match best {
                Some(a) => addresses@.contains(a) && usable(a) && forall|j: int|
                    0 <= j < i && usable(#[trigger] addresses@[j]) ==> preferred(a, addresses@[j]),
                None => forall|j: int| 0 <= j < i ==> !usable(#[trigger] addresses@[j]),
            },
        decreases addresses@.len() - i,
    {
        let a: ServiceAddress = addresses[i];
        if is_usable(&a) {
            let better: bool = match &best {
                Some(b) => !is_preferred(b, &a),
                None => true,
            };
            proof {
                assert(addresses@.contains(addresses@[i as int]));
            }
            if better {
                best = Some(a);
            }
        }
        i += 1;
    }
    best
}

/// The address to connect to depends on which addresses there are alone.
pub proof fn law_best_address_is_stable(
    a: Seq<ServiceAddress>,
    b: Seq<ServiceAddress>,
    x: Option<ServiceAddress>,
    y: Option<ServiceAddress>,
)
    requires
        forall|s: ServiceAddress| a.contains(s) == b.contains(s),
        is_best(a, x),
        is_best(b, y),
    ensures
        x == y,
{
    if let Some(p) = x {
        assert(b.contains(p));
        let i = choose|i: int| 0 <= i < b.len() && b[i] == p;
        assert(usable(b[i]));
        if let Some(q) = y {
            assert(a.contains(q));
            let j = choose|j: int| 0 <= j < a.len() && a[j] == q;
            assert(usable(a[j]));
        }
    } else if let Some(q) = y {
        assert(a.contains(q));
        let j = choose|j: int| 0 <= j < a.len() && a[j] == q;
        assert(usable(a[j]));
    }
}

// ---------------------------------------------------------------------------
// Devices
// ---------------------------------------------------------------------------

/// A device that was found.
#[derive(Debug, Clone)]
pub struct DiscoveredDevice {
    pub kind: ServiceKind,
    pub service_name: String,
    pub hostname: String,
    pub name: Option<String>,
    pub identifier: Option<String>,
    pub auth_tag: Option<String>,
    pub address: ServiceAddress,
    pub port: u16,
}

/// What a resolver says of a service.
pub struct ResolvedPairing {
    pub valid: bool,
    pub full_name: String,
    pub hostname: String,
    pub port: u16,
    pub addresses: Vec<ServiceAddress>,
    pub props: Table<String, String>,
}

/// `s` without the run of `.local` at its end.
pub open spec fn without_local(s: Seq<char>) -> Seq<char>
    decreases s.len(),
{
    if is_suffix(".local"@, s) && ".local"@.len() > 0 {
        without_local(s.take(s.len() - ".local"@.len()))
    } else {
        s
    }
}

/// A host name without the dots and then without the `.local` at its end.
pub fn trim_local(hostname: &str) -> (r: String)
    ensures
        r@ == without_local(without_trailing(hostname@, '.')),
{
    let host: String = trim_end_char(hostname, '.');
    let chars: Vec<char> = chars_of(host.as_str());
    let suffix: Vec<char> = chars_of(".local");
    let mut n: usize = chars.len();
    proof {
        reveal_strlit(".local");
        assert(chars@.take(n as int) =~= chars@);
    }
    loop
        invariant
            chars@ == host@,
            host@ == without_trailing(hostname@, '.'),
            suffix@ == ".local"@,
            suffix@.len() == 6,
            n <= chars@.len(),
            without_local(host@) == without_local(chars@.take(n as int)),
        decreases n,
    {
        let ghost here = chars@.take(n as int);
        if n < 6 || !ends_at(&chars, &suffix, n) {
            let r: String = string_of(&chars, 0, n);
            proof {
                assert(r@ =~= here);
                assert(here.len() == n);
            }
            return r;
        }
        proof {
            assert(here.take(n - 6) =~= chars@.take(n - 6));
        }
        n -= 6;
    }
}

fn ends_at(chars: &Vec<char>, suffix: &Vec<char>, n: usize) -> (r: bool)
    requires
        n <= chars@.len(),
        suffix@.len() <= n,
    ensures
        r == is_suffix(suffix@, chars@.take(n as int)),
{
    let at: usize = n - suffix.len();
    proof {
        let here = chars@.take(n as int);
        assert(here.subrange(at as int, n as int) =~= chars@.subrange(at as int, n as int));
        assert(here.len() == n);
    }
    chars_at(chars, suffix, at)
}

/// A property that is not empty.
pub open spec fn txt_value(props: Seq<(Seq<char>, Seq<char>)>, key: Seq<char>) -> Option<Seq<char>> {
    match held(props, key) {
        Some(v) if v.len() > 0 => Some(v),
        _ => None,
    }
}

/// A property that is not empty.
pub fn txt(props: &Table<String, String>, key: &str) -> (r: Option<String>)
    ensures
        opt_text(r) == txt_value(props@, key@),
{
    match props.get(key) {
        Some(v) => if chars_of(v.as_str()).len() > 0 {
            Some(v.clone())
        } else {
            None
        },
        None => None,
    }
}

impl DiscoveredDevice {
    /// The name of the device, else its host name.
    pub open spec fn shown_name(self) -> Seq<char> {
        match self.name {
            Some(n) => n@,
            None => self.hostname@,
        }
    }

    pub fn display_name(&self) -> (r: &str)
        ensures
            r@ == self.shown_name(),
    {
        match &self.name {
            Some(n) => n.as_str(),
            None => self.hostname.as_str(),
        }
    }

    /// The device that a resolved service stands for; none where the service is not valid or has no
    /// address that can be connected to.
    pub fn from_resolved(kind: ServiceKind, service: &ResolvedPairing) -> (r: Option<
        DiscoveredDevice,
    >)
        ensures
            match r {
                Some(d) => service.valid && d.kind == kind && d.service_name == service.full_name
                    && d.hostname@ == without_local(without_trailing(service.hostname@, '.'))
                    && opt_text(d.name) == txt_value(service.props@, "name"@) && opt_text(
                    d.identifier,
                ) == txt_value(service.props@, "identifier"@) && opt_text(d.auth_tag) == txt_value(
                    service.props@,
                    "authTag"@,
                ) && is_best(service.addresses@, Some(d.address)) && d.port == service.port,
                None => !service.valid || is_best(service.addresses@, None),
            },
    {
        if !service.valid {
            return None;
        }
        match best_address(&service.addresses) {
            Some(address) => Some(
                DiscoveredDevice {
                    kind,
                    service_name: service.full_name.clone(),
                    hostname: trim_local(service.hostname.as_str()),
                    name: txt(&service.props, "name"),
                    identifier: txt(&service.props, "identifier"),
                    auth_tag: txt(&service.props, "authTag"),
                    address,
                    port: service.port,
                },
            ),
            None => None,
        }
    }

    /// The device in a list, with its address as a text.
    pub fn to_text(&self, address: &str) -> (r: String)
        ensures
            r@ == "["@ + self.kind.text() + "] "@ + self.shown_name() + (" ("@ + address@ + ")"@),
    {
        let tail: String = crate::text::join3(" (", address, ")");
        join2(
            join4("[", self.kind.to_text(), "] ", self.display_name()).as_str(),
            tail.as_str(),
        )
    }
}

// ---------------------------------------------------------------------------
// Scans
// ---------------------------------------------------------------------------

/// The devices of a scan, each under the name of its service: a device that announces itself again
/// replaces what was known of it.
pub struct PairingScan {
    pub found: Vec<DiscoveredDevice>,
}

/// The index of the first device whose service has the given name, at or after `from`, or the
/// number of devices.
pub open spec fn service_index(found: Seq<DiscoveredDevice>, name: Seq<char>, from: int) -> int
    decreases found.len() - from,
{
    if from >= found.len() || found[from].service_name@ == name {
        from
    } else {
        service_index(found, name, from + 1)
    }
}

/// No service is there twice.
pub open spec fn services_distinct(found: Seq<DiscoveredDevice>) -> bool {
    forall|i: int, j: int|
        0 <= i < j < found.len() ==> (#[trigger] found[i]).service_name@ != (
        #[trigger] found[j]).service_name@
}

/// The devices with one more.
pub open spec fn with_found(found: Seq<DiscoveredDevice>, d: DiscoveredDevice) -> Seq<
    DiscoveredDevice,
> {
    let i = service_index(found, d.service_name@, 0);
    if i < found.len() {
        found.update(i, d)
    } else {
        found.push(d)
    }
}

/// The devices without the service with the given name.
pub open spec fn without_service(found: Seq<DiscoveredDevice>, name: Seq<char>) -> Seq<
    DiscoveredDevice,
> {
    let i = service_index(found, name, 0);
    if i < found.len() {
        found.remove(i)
    } else {
        found
    }
}

proof fn lemma_service_index(found: Seq<DiscoveredDevice>, name: Seq<char>, from: int)
    requires
        0 <= from <= found.len(),
    ensures
        from <= service_index(found, name, from) <= found.len(),
        service_index(found, name, from) < found.len() ==> found[service_index(
            found,
            name,
            from,
        )].service_name@ == name,
        forall|j: int|
            from <= j < service_index(found, name, from) ==> (#[trigger] found[j]).service_name@
                != name,
    decreases found.len() - from,
{
    if from < found.len() && found[from].service_name@ != name {
        lemma_service_index(found, name, from + 1);
    }
}

/// What devices are listed by: the shown name, then the name of the service.
pub open spec fn device_order(d: DiscoveredDevice) -> Seq<Seq<int>> {
    seq![text_key(d.shown_name()), text_key(d.service_name@)]
}

/// The order in which devices are listed.
pub struct ListOrder;

impl KeyOrder<DiscoveredDevice> for ListOrder {
    open spec fn key(&self, item: DiscoveredDevice) -> Seq<Seq<int>> {
        device_order(item)
    }

    fn not_after(&self, a: &DiscoveredDevice, b: &DiscoveredDevice) -> (r: bool) {
        proof {
            lemma_key_of_two(
                text_key(a.shown_name()),
                text_key(a.service_name@),
                text_key(b.shown_name()),
                text_key(b.service_name@),
            );
            lemma_text_key(a.shown_name(), b.shown_name());
            lemma_text_key(a.service_name@, b.service_name@);
            crate::text::lemma_text_le_reflexive(a.service_name@);
        }
        if same_text(a.display_name(), b.display_name()) {
            text_not_after(a.service_name.as_str(), b.service_name.as_str())
        } else {
            text_not_after(a.display_name(), b.display_name())
        }
    }
}

/// The keys that devices are listed by.
pub open spec fn device_orders(v: Seq<DiscoveredDevice>) -> Seq<Seq<Seq<int>>> {
    v.map_values(|d: DiscoveredDevice| device_order(d))
}

impl PairingScan {
    pub open spec fn wf(self) -> bool {
        services_distinct(self.found@)
    }

    pub fn new() -> (r: PairingScan)
        ensures
            r.found@.len() == 0,
            r.wf(),
    {
        PairingScan { found: Vec::new() }
    }

    fn index_of(&self, name: &str) -> (r: usize)
        ensures
            r == service_index(self.found@, name@, 0),
            r <= self.found@.len(),
    {
        let mut i: usize = 0;
        while i < self.found.len() && !same_text(self.found[i].service_name.as_str(), name)
            invariant
                i <= self.found@.len(),
                service_index(self.found@, name@, 0) == service_index(
                    self.found@,
                    name@,
                    i as int,
                ),
            decreases self.found@.len() - i,
        {
            i += 1;
        }
        i
    }

    /// A service was resolved.
    pub fn resolved(&mut self, device: DiscoveredDevice)
        requires
            old(self).wf(),
        ensures
            final(self).found@ == with_found(old(self).found@, device),
            final(self).wf(),
    {
        let i: usize = self.index_of(device.service_name.as_str());
        let ghost before = self.found@;
        proof {
            lemma_service_index(before, device.service_name@, 0);
        }
        if i < self.found.len() {
            let _ = self.found.remove(i);
            self.found.insert(i, device);
            proof {
                assert(self.found@ =~= with_found(before, device));
            }
        } else {
            self.found.push(device);
        }
    }

    /// A service was withdrawn.
    pub fn removed(&mut self, service_name: &str)
        requires
            old(self).wf(),
        ensures
            final(self).found@ == without_service(old(self).found@, service_name@),
            final(self).wf(),
    {
        let i: usize = self.index_of(service_name);
        if i < self.found.len() {
            let _ = self.found.remove(i);
        }
    }

    /// The devices that are there at the end of the scan, in the order in which they are listed.
    pub fn finish(self) -> (r: Vec<DiscoveredDevice>)
        ensures
            r@.to_multiset() == self.found@.to_multiset(),
            in_order(device_orders(r@)),
    {
        let order: ListOrder = ListOrder;
        let r: Vec<DiscoveredDevice> = sort_items(&order, self.found);
        proof {
            assert(keys_of(order, r@) =~= device_orders(r@));
        }
        r
    }
}

/// A service that was withdrawn is no longer there.
pub proof fn law_withdrawn_service_is_gone(found: Seq<DiscoveredDevice>, name: Seq<char>, i: int)
    requires
        services_distinct(found),
        0 <= i < without_service(found, name).len(),
    ensures
        without_service(found, name)[i].service_name@ != name,
{
    lemma_service_index(found, name, 0);
    let k = service_index(found, name, 0);
    if k < found.len() {
        let old_i = if i < k {
            i
        } else {
            i + 1
        };
        assert(without_service(found, name)[i] == found[old_i]);
        if old_i < k {
            assert(found[old_i].service_name@ != found[k].service_name@);
        } else {
            assert(found[k].service_name@ != found[old_i].service_name@);
        }
    }
}

// ---------------------------------------------------------------------------
// Verification
// ---------------------------------------------------------------------------

/// A device after pairing.
#[derive(Debug, Clone)]
pub struct PairedDevice {
    pub udid: String,
    pub name: String,
    pub model: String,
    pub account_id: String,
}

/// The outcome of connecting with a record. A device that asks for a PIN does not accept the record,
/// whatever else it answers.
pub fn verify(pin_requested: bool, result: Result<(), PlumeError>) -> (r: Result<(), PlumeError>)
    ensures
        r == if pin_requested {
            Err(PlumeError::PairingNotAccepted)
        } else {
            result
        },
{
    if pin_requested {
        Err(PlumeError::PairingNotAccepted)
    } else {
        result
    }
}

/// An address that is no address of a device, unspecified or of the machine itself, is never chosen;
/// one of the older kind is chosen wherever there is a usable one; and one is chosen wherever any is
/// usable.
pub proof fn law_chosen_address_is_usable(
    addresses: Seq<ServiceAddress>,
    r: Option<ServiceAddress>,
    i: int,
)
    requires
        is_best(addresses, r),
        0 <= i < addresses.len(),
    ensures
        r matches Some(ServiceAddress::V4(n)) ==> n != 0 && n / 0x100_0000 != 127,
        r matches Some(ServiceAddress::V6 { address, .. }) ==> address > 1,
        r matches Some(a) ==> addresses.contains(a),
        match addresses[i] {
            ServiceAddress::V4(n) => n != 0 && n / 0x100_0000 != 127 ==> (
            r matches Some(ServiceAddress::V4(m)) && m <= n),
            ServiceAddress::V6 { address, .. } => address > 1 ==> r is Some,
        },
{
    let a = addresses[i];
}

/// A name without `.local` is found behind any number of them, and never ends in one.
pub proof fn law_local_ending_is_taken_off(s: Seq<char>)
    ensures
        without_local(s + ".local"@) == without_local(s),
        !is_suffix(".local"@, without_local(s)),
    decreases s.len(),
{
    reveal_strlit(".local");
    let longer = s + ".local"@;
    assert(longer.subrange(longer.len() - 6, longer.len() as int) =~= ".local"@);
    assert(longer.take(longer.len() - 6) =~= s);
    if is_suffix(".local"@, s) {
        law_local_ending_is_taken_off(s.take(s.len() - 6));
    }
}

/// A service that was found is there, once, and all others stay; one that was withdrawn is gone, and
/// all others stay.
pub proof fn law_other_services_stay(
    found: Seq<DiscoveredDevice>,
    d: DiscoveredDevice,
    name: Seq<char>,
    i: int,
)
    requires
        services_distinct(found),
        0 <= i < found.len(),
    ensures
        with_found(found, d).contains(d),
        found[i].service_name@ != d.service_name@ ==> with_found(found, d).contains(found[i]),
        found[i].service_name@ != name ==> without_service(found, name).contains(found[i]),
        services_distinct(with_found(found, d)),
{
    lemma_index(found, d.service_name@, 0);
    lemma_index(found, name, 0);
    let k = service_index(found, d.service_name@, 0);
    let more = with_found(found, d);
    if k < found.len() {
        assert(more[k] == d);
    } else {
        assert(more[found.len() as int] == d);
    }
    if found[i].service_name@ != d.service_name@ {
        assert(more[i] == found[i]);
    }
    let w = service_index(found, name, 0);
    let rest = without_service(found, name);
    if found[i].service_name@ != name {
        if w >= found.len() || i < w {
            assert(rest[i] == found[i]);
        } else {
            assert(rest[i - 1] == found[i]);
        }
    }
}

proof fn lemma_index(found: Seq<DiscoveredDevice>, name: Seq<char>, from: int)
    requires
        0 <= from <= found.len(),
    ensures
        from <= service_index(found, name, from) <= found.len(),
        service_index(found, name, from) < found.len() ==> found[service_index(
            found,
            name,
            from,
        )].service_name@ == name,
        forall|j: int|
            from <= j < service_index(found, name, from) ==> (#[trigger] found[j]).service_name@
                != name,
    decreases found.len() - from,
{
    if from < found.len() && found[from].service_name@ != name {
        lemma_index(found, name, from + 1);
    }
}

/// A value that is empty counts as none, and any other is given as it stands.
pub proof fn law_empty_values_are_none(props: Seq<(Seq<char>, Seq<char>)>, key: Seq<char>)
    ensures
        txt_value(props, key) matches Some(v) ==> v.len() > 0 && held(props, key) == Some(v),
        txt_value(props, key) is None ==> (held(props, key) matches Some(v) ==> v.len() == 0),
{
}

/// Devices are listed by the name that is shown, and by their service where the names are the same.
pub proof fn law_devices_are_listed_by_name(v: Seq<DiscoveredDevice>, i: int, j: int)
    requires
        crate::sort::in_order(device_orders(v)),
        0 <= i < j < v.len(),
    ensures
        crate::text::text_le(v[i].shown_name(), v[j].shown_name()),
        v[i].shown_name() == v[j].shown_name() ==> crate::text::text_le(
            v[i].service_name@,
            v[j].service_name@,
        ),
{
    let keys = device_orders(v);
    assert(crate::sort::key_le(keys[i], keys[j]));
    let a = v[i];
    let b = v[j];
    let x = text_key(a.shown_name());
    let y = text_key(b.shown_name());
    crate::sort::law_first_part_comes_first(
        x,
        y,
        seq![text_key(a.service_name@)],
        seq![text_key(b.service_name@)],
    );
    assert(keys[i] =~= seq![x] + seq![text_key(a.service_name@)]);
    assert(keys[j] =~= seq![y] + seq![text_key(b.service_name@)]);
    crate::sort::law_keys_order_texts(a.shown_name(), b.shown_name());
    crate::sort::law_keys_order_texts(a.service_name@, b.service_name@);
    if x == y {
        crate::text::lemma_text_le_reflexive(a.shown_name());
        crate::sort::law_keys_order_texts(a.shown_name(), a.shown_name());
        crate::sort::law_first_part_comes_first(
            text_key(a.service_name@),
            text_key(b.service_name@),
            seq![],
            seq![],
        );
        assert(seq![text_key(a.service_name@)] =~= seq![text_key(a.service_name@)] + seq![]);
        assert(seq![text_key(b.service_name@)] =~= seq![text_key(b.service_name@)] + seq![]);
        if text_key(a.service_name@) == text_key(b.service_name@) {
            crate::text::lemma_text_le_reflexive(b.service_name@);
            crate::sort::law_keys_order_texts(b.service_name@, b.service_name@);
        }
        lemma_same_text(a.shown_name(), b.shown_name());
    }
}

proof fn lemma_same_text(a: Seq<char>, b: Seq<char>)
    requires
        text_key(a) == text_key(b),
    ensures
        a == b,
{
    assert(text_key(a).len() == a.len() && text_key(b).len() == b.len());
    assert forall|i: int| 0 <= i < a.len() implies a[i] == b[i] by {
        assert(text_key(a)[i] == a[i] as int && text_key(b)[i] == b[i] as int);
    }
    assert(a =~= b);
}

} // verus!
