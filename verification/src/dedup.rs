//! Merging several records of one device, and sizes as they are shown.
use crate::device::{Connection, Device, Endpoint};
use crate::provision::{device_udid, is_valid_device_udid};
use crate::text::{
    ascii_lowercase, chars_of, decimal, decimal_text, eq_ignore_case, is_prefix, join2, lower,
    same_ignoring_case, same_text, starts_with, texts,
};
use vstd::prelude::*;

verus! {

// ---------------------------------------------------------------------------
// Keys
// ---------------------------------------------------------------------------

/// The key of a valid device identifier.
pub open spec fn udid_keys(d: Device) -> Seq<Seq<char>> {
    if device_udid(d.udid@) {
        seq!["udid:"@ + lower(d.udid@)]
    } else {
        seq![]
    }
}

/// The key of a pairing identity.
pub open spec fn identity_keys(d: Device) -> Seq<Seq<char>> {
    match d.pairing_identity {
        Some(i) if i@.len() > 0 => seq!["pairing:"@ + lower(i@)],
        _ => seq![],
    }
}

/// The keys of a device on the multiplexing daemon.
pub open spec fn mux_keys(d: Device) -> Seq<Seq<char>> {
    match d.usbmuxd_device {
        Some(u) => match u.connection_type {
            Connection::Network(ip) => seq![
                "mux:"@ + decimal(u.device_id as nat),
                "network-ip:"@ + ip.text@,
            ],
            _ => seq!["mux:"@ + decimal(u.device_id as nat)],
        },
        None => seq![],
    }
}

/// The key of an address.
pub open spec fn address_keys(e: Option<Endpoint>) -> Seq<Seq<char>> {
    match e {
        Some(e) => seq!["network-ip:"@ + e.ip.text@],
        None => seq![],
    }
}

/// What a device is recognised by.
pub open spec fn device_keys(d: Device) -> Seq<Seq<char>> {
    udid_keys(d) + identity_keys(d) + mux_keys(d) + address_keys(d.pairing_address) + address_keys(
        d.reconnect_address,
    )
}

/// Two devices have a key in common.
pub open spec fn share_key(a: Device, b: Device) -> bool {
    exists|k: Seq<char>| #[trigger] device_keys(a).contains(k) && device_keys(b).contains(k)
}

fn push_key(keys: &mut Vec<String>, prefix: &str, rest: &str)
    ensures
        texts(final(keys)@) == texts(old(keys)@) + seq![prefix@ + rest@],
{
    let ghost before = keys@;
    let key: String = join2(prefix, rest);
    let ghost shown = key@;
    keys.push(key);
    proof {
        assert(texts(keys@) =~= texts(before) + seq![shown]);
    }
}

/// What a device is recognised by.
pub fn dedup_keys_for_device(device: &Device) -> (r: Vec<String>)
    ensures
        texts(r@) == device_keys(*device),
{
    let mut keys: Vec<String> = Vec::new();
    proof {
        assert(texts(keys@) =~= seq![]);
    }
    if is_valid_device_udid(device.udid.as_str()) {
        push_key(&mut keys, "udid:", ascii_lowercase(device.udid.as_str()).as_str());
    }
    proof {
        assert(texts(keys@) =~= udid_keys(*device));
    }
    if let Some(identity) = &device.pairing_identity {
        if chars_of(identity.as_str()).len() > 0 {
            push_key(&mut keys, "pairing:", ascii_lowercase(identity.as_str()).as_str());
        }
    }
    let ghost first = udid_keys(*device) + identity_keys(*device);
    proof {
        assert(texts(keys@) =~= first);
    }
    if let Some(mux) = &device.usbmuxd_device {
        push_key(&mut keys, "mux:", decimal_text(mux.device_id as u64).as_str());
        if let Connection::Network(ip) = &mux.connection_type {
            push_key(&mut keys, "network-ip:", ip.text.as_str());
        }
    }
    proof {
        assert(texts(keys@) =~= first + mux_keys(*device));
    }
    if let Some(e) = &device.pairing_address {
        push_key(&mut keys, "network-ip:", e.ip.text.as_str());
    }
    proof {
        assert(texts(keys@) =~= first + mux_keys(*device) + address_keys(device.pairing_address));
    }
    if let Some(e) = &device.reconnect_address {
        push_key(&mut keys, "network-ip:", e.ip.text.as_str());
    }
    proof {
        assert(texts(keys@) =~= device_keys(*device));
    }
    keys
}

fn any_shared(a: &Vec<String>, b: &Vec<String>) -> (r: bool)
    ensures
        r == exists|k: Seq<char>| #[trigger] texts(a@).contains(k) && texts(b@).contains(k),
{
    let mut i: usize = 0;
    while i < a.len()
        invariant
            i <= a@.len(),
            forall|k: int| 0 <= k < i ==> !texts(b@).contains(#[trigger] texts(a@)[k]),
        decreases a@.len() - i,
    {
        let mut j: usize = 0;
        while j < b.len()
            invariant
                i < a@.len(),
                j <= b@.len(),
                forall|k: int| 0 <= k < j ==> texts(b@)[k] != texts(a@)[i as int],
            decreases b@.len() - j,
        {
            if same_text(a[i].as_str(), b[j].as_str()) {
                proof {
                    assert(texts(a@)[i as int] == texts(b@)[j as int]);
                    assert(texts(a@).contains(texts(a@)[i as int]));
                    assert(texts(b@).contains(texts(b@)[j as int]));
                }
                return true;
            }
            j += 1;
        }
        i += 1;
    }
    proof {
        assert forall|k: Seq<char>| #[trigger] texts(a@).contains(k) implies !texts(b@).contains(k) by {
            let x = choose|x: int| 0 <= x < texts(a@).len() && texts(a@)[x] == k;
            assert(!texts(b@).contains(texts(a@)[x]));
        }
    }
    false
}

fn devices_share_key(a: &Device, b: &Device) -> (r: bool)
    ensures
        r == share_key(*a, *b),
{
    any_shared(&dedup_keys_for_device(a), &dedup_keys_for_device(b))
}

// ---------------------------------------------------------------------------
// Merging
// ---------------------------------------------------------------------------

/// `n` points where `b` holds.
#[verifier::opaque]
pub open spec fn points(b: bool, n: int) -> int {
    if b {
        n
    } else {
        0
    }
}

/// How much is known of a device.
pub open spec fn quality(d: Device) -> int {
    points(device_udid(d.udid@), 100) + points(d.pairing_identity is Some, 40) + points(
        d.usbmuxd_device is Some,
        20,
    ) + points(d.core_device_authenticated, 25) + points(d.product_type is Some, 10) + points(
        d.device_class is Some,
        8,
    ) + points(d.os_version is Some, 4) + points(d.serial_number is Some, 4) + points(
        d.reconnect_address is Some,
        3,
    ) + points(d.pairing_address is Some, 2)
}

/// How much is known of a device.
pub fn device_quality(device: &Device) -> (r: usize)
    ensures
        r == quality(*device),
        r <= 216,
{
    score(is_valid_device_udid(device.udid.as_str()), 100) + score(
        device.pairing_identity.is_some(),
        40,
    ) + score(device.usbmuxd_device.is_some(), 20) + score(device.core_device_authenticated, 25)
        + score(device.product_type.is_some(), 10) + score(device.device_class.is_some(), 8)
        + score(device.os_version.is_some(), 4) + score(device.serial_number.is_some(), 4) + score(
        device.reconnect_address.is_some(),
        3,
    ) + score(device.pairing_address.is_some(), 2)
}

fn score(b: bool, n: usize) -> (r: usize)
    ensures
        r == points(b, n as int),
        r <= n,
{
    proof {
        reveal(points);
    }
    if b {
        n
    } else {
        0
    }
}

/// The first of two optional values that is there.
pub open spec fn first_of<T>(a: Option<T>, b: Option<T>) -> Option<T> {
    match a {
        Some(_) => a,
        None => b,
    }
}

/// A device with a pairing identity that is an Apple TV by product type or class.
pub open spec fn remote_tv(
    identity: Option<String>,
    product_type: Option<String>,
    device_class: Option<String>,
) -> bool {
    identity is Some && ((product_type matches Some(p) && is_prefix("AppleTV"@, p@)) || (
    device_class matches Some(c) && same_ignoring_case(c@, "AppleTV"@)))
}

/// `a` with what it lacks taken from `b`. An Apple TV that is reached by pairing is not reached
/// through the multiplexing daemon.
pub open spec fn filled(a: Device, b: Device) -> Device {
    let product_type = first_of(a.product_type, b.product_type);
    let device_class = first_of(a.device_class, b.device_class);
    Device {
        name: if a.name@.len() == 0 {
            b.name
        } else {
            a.name
        },
        udid: if !device_udid(a.udid@) && device_udid(b.udid@) {
            b.udid
        } else {
            a.udid
        },
        product_type,
        device_class,
        os_version: first_of(a.os_version, b.os_version),
        serial_number: first_of(a.serial_number, b.serial_number),
        device_id: if a.device_id == 0 {
            b.device_id
        } else {
            a.device_id
        },
        usbmuxd_device: if remote_tv(a.pairing_identity, product_type, device_class) {
            None
        } else {
            first_of(a.usbmuxd_device, b.usbmuxd_device)
        },
        is_mac: a.is_mac || b.is_mac,
        pairing_address: first_of(a.pairing_address, b.pairing_address),
        reconnect_address: first_of(a.reconnect_address, b.reconnect_address),
        pairing_identity: first_of(a.pairing_identity, b.pairing_identity),
        pairing_cache_dir: first_of(a.pairing_cache_dir, b.pairing_cache_dir),
        core_device_authenticated: a.core_device_authenticated || b.core_device_authenticated,
    }
}

/// Two records of one device as one: the one of which more is known, with what it lacks taken from
/// the other.
pub open spec fn merged(existing: Device, incoming: Device) -> Device {
    if quality(incoming) > quality(existing) {
        filled(incoming, existing)
    } else {
        filled(existing, incoming)
    }
}

fn fill<T>(a: Option<T>, b: Option<T>) -> (r: Option<T>)
    ensures
        r == first_of(a, b),
{
    match a {
        Some(v) => Some(v),
        None => b,
    }
}

fn fill_device(a: Device, b: Device) -> (r: Device)
    ensures
        r == filled(a, b),
{
    let udid_from_b: bool = !is_valid_device_udid(a.udid.as_str()) && is_valid_device_udid(
        b.udid.as_str(),
    );
    let name_from_b: bool = chars_of(a.name.as_str()).len() == 0;
    let product_type: Option<String> = fill(a.product_type, b.product_type);
    let device_class: Option<String> = fill(a.device_class, b.device_class);
    let by_product: bool = match &product_type {
        Some(p) => starts_with(p.as_str(), "AppleTV"),
        None => false,
    };
    let by_class: bool = match &device_class {
        Some(c) => eq_ignore_case(c.as_str(), "AppleTV"),
        None => false,
    };
    let is_remote_tvos: bool = a.pairing_identity.is_some() && (by_product || by_class);
    Device {
        name: if name_from_b {
            b.name
        } else {
            a.name
        },
        udid: if udid_from_b {
            b.udid
        } else {
            a.udid
        },
        product_type,
        device_class,
        os_version: fill(a.os_version, b.os_version),
        serial_number: fill(a.serial_number, b.serial_number),
        device_id: if a.device_id == 0 {
            b.device_id
        } else {
            a.device_id
        },
        usbmuxd_device: if is_remote_tvos {
            None
        } else {
            fill(a.usbmuxd_device, b.usbmuxd_device)
        },
        is_mac: a.is_mac || b.is_mac,
        pairing_address: fill(a.pairing_address, b.pairing_address),
        reconnect_address: fill(a.reconnect_address, b.reconnect_address),
        pairing_identity: fill(a.pairing_identity, b.pairing_identity),
        pairing_cache_dir: fill(a.pairing_cache_dir, b.pairing_cache_dir),
        core_device_authenticated: a.core_device_authenticated || b.core_device_authenticated,
    }
}

/// Two records of one device as one.
pub fn merge_devices(existing: Device, incoming: Device) -> (r: Device)
    ensures
        r == merged(existing, incoming),
{
    if device_quality(&incoming) > device_quality(&existing) {
        fill_device(incoming, existing)
    } else {
        fill_device(existing, incoming)
    }
}

// ---------------------------------------------------------------------------
// Deduplication
// ---------------------------------------------------------------------------

/// The index of the first group that shares a key with `device`, at or after `from`, or the number
/// of groups.
pub open spec fn first_match(groups: Seq<Device>, device: Device, from: int) -> int
    decreases groups.len() - from,
{
    if from >= groups.len() || share_key(groups[from], device) {
        from
    } else {
        first_match(groups, device, from + 1)
    }
}

/// The record for `device` and all groups from index `from` on that share a key with it, the last
/// group first.
pub open spec fn absorbed(groups: Seq<Device>, device: Device, start: Device, from: int) -> Device
    decreases groups.len() - from,
{
    if from >= groups.len() {
        start
    } else {
        let later = absorbed(groups, device, start, from + 1);
        if share_key(groups[from], device) {
            merged(later, groups[from])
        } else {
            later
        }
    }
}

/// The groups from index `from` on that share no key with `device`.
pub open spec fn untouched(groups: Seq<Device>, device: Device, from: int) -> Seq<Device>
    decreases groups.len() - from,
{
    if from >= groups.len() {
        seq![]
    } else {
        let later = untouched(groups, device, from + 1);
        if share_key(groups[from], device) {
            later
        } else {
            seq![groups[from]] + later
        }
    }
}

/// The groups with one more device: it joins all groups with which it shares a key into the first of
/// them, or is a group of its own.
pub open spec fn with_device(groups: Seq<Device>, device: Device) -> Seq<Device> {
    let first = first_match(groups, device, 0);
    if first >= groups.len() {
        groups.push(device)
    } else {
        groups.take(first) + seq![
            absorbed(groups, device, merged(groups[first], device), first + 1),
        ] + untouched(groups, device, first + 1)
    }
}

/// The groups of the first `n` devices.
pub open spec fn grouped(devices: Seq<Device>, n: int) -> Seq<Device>
    decreases n,
{
    if n <= 0 {
        seq![]
    } else {
        with_device(grouped(devices, n - 1), devices[n - 1])
    }
}

proof fn lemma_first_match(groups: Seq<Device>, device: Device, from: int)
    requires
        0 <= from <= groups.len(),
    ensures
        from <= first_match(groups, device, from) <= groups.len(),
        first_match(groups, device, from) < groups.len() ==> share_key(
            groups[first_match(groups, device, from)],
            device,
        ),
        forall|i: int|
            from <= i < first_match(groups, device, from) ==> !share_key(
                #[trigger] groups[i],
                device,
            ),
    decreases groups.len() - from,
{
    if from < groups.len() && !share_key(groups[from], device) {
        lemma_first_match(groups, device, from + 1);
    }
}

fn find_match(groups: &Vec<Device>, device: &Device) -> (r: usize)
    ensures
        r == first_match(groups@, *device, 0),
        r <= groups@.len(),
{
    let mut i: usize = 0;
    while i < groups.len() && !devices_share_key(&groups[i], device)
        invariant
            i <= groups@.len(),
            first_match(groups@, *device, 0) == first_match(groups@, *device, i as int),
        decreases groups@.len() - i,
    {
        i += 1;
    }
    i
}

/// Merges the groups behind `first` that share a key with `device` into `start`, from the last one
/// on. Returns that record and the groups that are left behind `first`.
fn absorb(groups: Vec<Device>, device: &Device, start: Device, first: usize) -> (r: (
    Vec<Device>,
    Device,
))
    requires
        first < groups@.len(),
    ensures
        r.0@ == groups@.take(first + 1) + untouched(groups@, *device, first + 1),
        r.1 == absorbed(groups@, *device, start, first + 1),
{
    let ghost all = groups@;
    let n: usize = groups.len();
    let mut left: Vec<Device> = groups;
    let mut merged_device: Device = start;
    let mut i: usize = n;
    proof {
        assert(all.take(n as int) + untouched(all, *device, n as int) =~= all);
    }
    while i > first + 1
        invariant
            first < i <= n == all.len(),
            left@ == all.take(i as int) + untouched(all, *device, i as int),
            merged_device == absorbed(all, *device, start, i as int),
        decreases i,
    {
        i -= 1;
        proof {
            assert(left@[i as int] == all[i as int]);
        }
        if devices_share_key(&left[i], device) {
            let other: Device = left.remove(i);
            merged_device = merge_devices(merged_device, other);
            proof {
                assert(left@ =~= all.take(i as int) + untouched(all, *device, i as int));
            }
        } else {
            proof {
                assert(left@ =~= all.take(i as int) + untouched(all, *device, i as int));
            }
        }
    }
    (left, merged_device)
}

fn add_device(groups: Vec<Device>, device: Device) -> (r: Vec<Device>)
    ensures
        r@ == with_device(groups@, device),
{
    let first: usize = find_match(&groups, &device);
    if first >= groups.len() {
        let mut r: Vec<Device> = groups;
        r.push(device);
        return r;
    }
    let ghost all = groups@;
    let start: Device = merge_devices(groups[first].clone(), device.clone());
    let (left, merged_device): (Vec<Device>, Device) = absorb(groups, &device, start, first);
    let mut r: Vec<Device> = left;
    let ghost before = r@;
    let _ = r.remove(first);
    r.insert(first, merged_device);
    proof {
        assert(before.len() > first);
        assert(r@ =~= with_device(all, device));
    }
    r
}

/// The devices, each once: records that share a key are merged.
pub fn deduplicate_devices(devices: Vec<Device>) -> (r: Vec<Device>)
    ensures
        r@ == grouped(devices@, devices@.len() as int),
{
    let ghost all = devices@;
    let mut rest: Vec<Device> = devices;
    let mut groups: Vec<Device> = Vec::new();
    let ghost mut n: int = 0;
    proof {
        assert(all.skip(0) =~= all);
        assert(groups@ =~= grouped(all, 0));
    }
    while rest.len() > 0
        invariant
            0 <= n <= all.len(),
            rest@ == all.skip(n),
            groups@ == grouped(all, n),
        decreases rest@.len(),
    {
        let device: Device = rest.remove(0);
        proof {
            assert(device == all[n]);
            assert(rest@ =~= all.skip(n + 1));
            n = n + 1;
        }
        groups = add_device(groups, device);
    }
    groups
}

// ---------------------------------------------------------------------------
// Laws
// ---------------------------------------------------------------------------

proof fn lemma_concat_contains(a: Seq<Seq<char>>, b: Seq<Seq<char>>, k: Seq<char>)
    ensures
        (a + b).contains(k) == (a.contains(k) || b.contains(k)),
{
    if a.contains(k) {
        let i = choose|i: int| 0 <= i < a.len() && a[i] == k;
        assert((a + b)[i] == k);
    }
    if b.contains(k) {
        let i = choose|i: int| 0 <= i < b.len() && b[i] == k;
        assert((a + b)[a.len() + i] == k);
    }
    if (a + b).contains(k) {
        let i = choose|i: int| 0 <= i < (a + b).len() && (a + b)[i] == k;
        if i < a.len() {
            assert(a[i] == k);
        } else {
            assert(b[i - a.len()] == k);
        }
    }
}

/// A key of a device is one of those of its parts.
proof fn lemma_device_keys(d: Device, k: Seq<char>)
    ensures
        device_keys(d).contains(k) == (udid_keys(d).contains(k) || identity_keys(d).contains(k)
            || mux_keys(d).contains(k) || address_keys(d.pairing_address).contains(k)
            || address_keys(d.reconnect_address).contains(k)),
{
    let a = udid_keys(d);
    let b = identity_keys(d);
    let c = mux_keys(d);
    let e = address_keys(d.pairing_address);
    let f = address_keys(d.reconnect_address);
    lemma_concat_contains(a, b, k);
    lemma_concat_contains(a + b, c, k);
    lemma_concat_contains(a + b + c, e, k);
    lemma_concat_contains(a + b + c + e, f, k);
}

/// Merging two records makes up no key: each key of the merged record is one of the two.
pub proof fn law_merging_makes_no_key(a: Device, b: Device, k: Seq<char>)
    requires
        device_keys(merged(a, b)).contains(k),
    ensures
        device_keys(a).contains(k) || device_keys(b).contains(k),
{
    lemma_device_keys(merged(a, b), k);
    lemma_device_keys(a, k);
    lemma_device_keys(b, k);
}

proof fn lemma_absorbed_keys(
    groups: Seq<Device>,
    device: Device,
    start: Device,
    from: int,
    k: Seq<char>,
)
    requires
        0 <= from <= groups.len(),
        device_keys(absorbed(groups, device, start, from)).contains(k),
    ensures
        device_keys(start).contains(k) || exists|i: int|
            from <= i < groups.len() && share_key(#[trigger] groups[i], device) && device_keys(
                groups[i],
            ).contains(k),
    decreases groups.len() - from,
{
    if from < groups.len() {
        let later = absorbed(groups, device, start, from + 1);
        if share_key(groups[from], device) {
            law_merging_makes_no_key(later, groups[from], k);
            if !device_keys(groups[from]).contains(k) {
                lemma_absorbed_keys(groups, device, start, from + 1, k);
            }
        } else {
            lemma_absorbed_keys(groups, device, start, from + 1, k);
        }
    }
}

/// The index in `groups` of the group at index `x` of the untouched ones.
proof fn lemma_untouched(groups: Seq<Device>, device: Device, from: int, x: int) -> (i: int)
    requires
        0 <= from <= groups.len(),
        0 <= x < untouched(groups, device, from).len(),
    ensures
        from + x <= i < groups.len(),
        !share_key(groups[i], device),
        untouched(groups, device, from)[x] == groups[i],
    decreases groups.len() - from,
{
    let later = untouched(groups, device, from + 1);
    if share_key(groups[from], device) {
        lemma_untouched(groups, device, from + 1, x)
    } else if x == 0 {
        from
    } else {
        assert(untouched(groups, device, from)[x] == later[x - 1]);
        lemma_untouched(groups, device, from + 1, x - 1)
    }
}

/// Two different untouched groups stand at different places.
proof fn lemma_untouched_order(groups: Seq<Device>, device: Device, from: int, x: int, y: int) -> (r:
    (int, int))
    requires
        0 <= from <= groups.len(),
        0 <= x < y < untouched(groups, device, from).len(),
    ensures
        from <= r.0 < r.1 < groups.len(),
        !share_key(groups[r.0], device),
        !share_key(groups[r.1], device),
        untouched(groups, device, from)[x] == groups[r.0],
        untouched(groups, device, from)[y] == groups[r.1],
    decreases groups.len() - from,
{
    let later = untouched(groups, device, from + 1);
    if share_key(groups[from], device) {
        lemma_untouched_order(groups, device, from + 1, x, y)
    } else if x == 0 {
        assert(untouched(groups, device, from)[y] == later[y - 1]);
        let j = lemma_untouched(groups, device, from + 1, y - 1);
        (from, j)
    } else {
        assert(untouched(groups, device, from)[x] == later[x - 1]);
        assert(untouched(groups, device, from)[y] == later[y - 1]);
        lemma_untouched_order(groups, device, from + 1, x - 1, y - 1)
    }
}

/// No two devices share a key.
pub open spec fn apart(groups: Seq<Device>) -> bool {
    forall|i: int, j: int|
        0 <= i < groups.len() && 0 <= j < groups.len() && i != j ==> !share_key(
            #[trigger] groups[i],
            #[trigger] groups[j],
        )
}

proof fn lemma_share_symmetric(a: Device, b: Device)
    ensures
        share_key(a, b) == share_key(b, a),
{
    if share_key(a, b) {
        let k = choose|k: Seq<char>| #[trigger] device_keys(a).contains(k) && device_keys(b).contains(k);
        assert(device_keys(b).contains(k) && device_keys(a).contains(k));
    }
    if share_key(b, a) {
        let k = choose|k: Seq<char>| #[trigger] device_keys(b).contains(k) && device_keys(a).contains(k);
        assert(device_keys(a).contains(k) && device_keys(b).contains(k));
    }
}

/// The record that a device was merged into shares no key with a group that shares none with the
/// device.
proof fn lemma_absorbed_apart(groups: Seq<Device>, device: Device, first: int, other: int)
    requires
        apart(groups),
        0 <= first < groups.len(),
        share_key(groups[first], device),
        0 <= other < groups.len(),
        !share_key(groups[other], device),
    ensures
        !share_key(
            absorbed(groups, device, merged(groups[first], device), first + 1),
            groups[other],
        ),
{
    let start = merged(groups[first], device);
    let all = absorbed(groups, device, start, first + 1);
    if share_key(all, groups[other]) {
        let k = choose|k: Seq<char>| #[trigger] device_keys(all).contains(k) && device_keys(
            groups[other],
        ).contains(k);
        lemma_share_symmetric(groups[other], device);
        lemma_absorbed_keys(groups, device, start, first + 1, k);
        if device_keys(start).contains(k) {
            law_merging_makes_no_key(groups[first], device, k);
            if device_keys(groups[first]).contains(k) {
                assert(share_key(groups[first], groups[other]));
            } else {
                assert(share_key(device, groups[other]));
            }
        } else {
            let i = choose|i: int|
                first + 1 <= i < groups.len() && share_key(#[trigger] groups[i], device)
                    && device_keys(groups[i]).contains(k);
            assert(share_key(groups[i], groups[other]));
        }
    }
}

proof fn lemma_with_device_apart(groups: Seq<Device>, device: Device)
    requires
        apart(groups),
    ensures
        apart(with_device(groups, device)),
{
    let first = first_match(groups, device, 0);
    lemma_first_match(groups, device, 0);
    let after = with_device(groups, device);
    if first >= groups.len() {
        assert forall|i: int, j: int|
            0 <= i < after.len() && 0 <= j < after.len() && i != j implies !share_key(
            #[trigger] after[i],
            #[trigger] after[j],
        ) by {
            if i == groups.len() {
                lemma_share_symmetric(groups[j], device);
            }
        }
    } else {
        let all = absorbed(groups, device, merged(groups[first], device), first + 1);
        let rest = untouched(groups, device, first + 1);
        assert forall|i: int, j: int| 0 <= i < j < after.len() implies !share_key(
            #[trigger] after[i],
            #[trigger] after[j],
        ) by {
            if j < first {
                assert(after[i] == groups[i] && after[j] == groups[j]);
            } else if i < first && j == first {
                assert(after[i] == groups[i] && after[j] == all);
                lemma_absorbed_apart(groups, device, first, i);
                lemma_share_symmetric(all, groups[i]);
            } else if i < first {
                let b = lemma_untouched(groups, device, first + 1, j - first - 1);
                assert(after[i] == groups[i] && after[j] == groups[b]);
            } else if i == first {
                let b = lemma_untouched(groups, device, first + 1, j - first - 1);
                assert(after[i] == all && after[j] == groups[b]);
                lemma_absorbed_apart(groups, device, first, b);
            } else {
                let (a, b) = lemma_untouched_order(
                    groups,
                    device,
                    first + 1,
                    i - first - 1,
                    j - first - 1,
                );
                assert(after[i] == groups[a] && after[j] == groups[b]);
            }
        }
        assert forall|i: int, j: int|
            0 <= i < after.len() && 0 <= j < after.len() && i != j implies !share_key(
            #[trigger] after[i],
            #[trigger] after[j],
        ) by {
            lemma_share_symmetric(after[i], after[j]);
            if i < j {
                assert(!share_key(after[i], after[j]));
            } else {
                assert(!share_key(after[j], after[i]));
            }
        }
    }
}

/// After deduplication no two devices share a key.
pub proof fn law_deduplicated_devices_are_apart(devices: Seq<Device>, n: int)
    requires
        0 <= n <= devices.len(),
    ensures
        apart(grouped(devices, n)),
    decreases n,
{
    if n > 0 {
        law_deduplicated_devices_are_apart(devices, n - 1);
        lemma_with_device_apart(grouped(devices, n - 1), devices[n - 1]);
    }
}

/// Devices of which no two share a key stay as they are.
pub proof fn law_distinct_devices_stay(devices: Seq<Device>, n: int)
    requires
        0 <= n <= devices.len(),
        apart(devices),
    ensures
        grouped(devices, n) == devices.take(n),
    decreases n,
{
    if n > 0 {
        law_distinct_devices_stay(devices, n - 1);
        let groups = devices.take(n - 1);
        let device = devices[n - 1];
        lemma_first_match(groups, device, 0);
        let first = first_match(groups, device, 0);
        if first < groups.len() {
            assert(share_key(devices[first], devices[n - 1]));
        }
        assert(groups.push(device) =~= devices.take(n));
    } else {
        assert(devices.take(0) =~= seq![]);
    }
}

/// Merging loses nothing that is known: a valid identifier, an identity, an address or any text of
/// either record is there in the merged one.
pub proof fn law_merging_keeps_what_is_known(a: Device, b: Device)
    ensures
        device_udid(merged(a, b).udid@) == (device_udid(a.udid@) || device_udid(b.udid@)),
        (merged(a, b).pairing_identity is Some) == (a.pairing_identity is Some
            || b.pairing_identity is Some),
        (merged(a, b).product_type is Some) == (a.product_type is Some || b.product_type is Some),
        (merged(a, b).device_class is Some) == (a.device_class is Some || b.device_class is Some),
        (merged(a, b).os_version is Some) == (a.os_version is Some || b.os_version is Some),
        (merged(a, b).serial_number is Some) == (a.serial_number is Some || b.serial_number is Some),
        (merged(a, b).pairing_address is Some) == (a.pairing_address is Some
            || b.pairing_address is Some),
        (merged(a, b).reconnect_address is Some) == (a.reconnect_address is Some
            || b.reconnect_address is Some),
        merged(a, b).core_device_authenticated == (a.core_device_authenticated
            || b.core_device_authenticated),
        merged(a, b).name@.len() == 0 ==> a.name@.len() == 0 && b.name@.len() == 0,
{
}

// ---------------------------------------------------------------------------
// Sizes
// ---------------------------------------------------------------------------

pub const KB: u64 = 1_000;

pub const MB: u64 = 1_000_000;

pub const GB: u64 = 1_000_000_000;

/// A number of bytes as it is shown: whole kilobytes and bytes, and above that the quotient by a
/// million or a thousand million, which `quotient` renders with one decimal.
pub fn format_bytes<F: Fn(u64, u64) -> String>(bytes: u64, quotient: F) -> (r: String)
    requires
        bytes >= GB ==> call_requires(quotient, (bytes, GB)),
        MB <= bytes < GB ==> call_requires(quotient, (bytes, MB)),
    ensures
        bytes >= GB ==> exists|q: String| #[trigger]
            call_ensures(quotient, (bytes, GB), q) && r@ == q@ + " GB"@,
        MB <= bytes < GB ==> exists|q: String| #[trigger]
            call_ensures(quotient, (bytes, MB), q) && r@ == q@ + " MB"@,
        KB <= bytes < MB ==> r@ == decimal((bytes / KB) as nat) + " KB"@,
        bytes < KB ==> r@ == decimal(bytes as nat) + " B"@,
{
    if bytes >= GB {
        let q: String = quotient(bytes, GB);
        join2(q.as_str(), " GB")
    } else if bytes >= MB {
        let q: String = quotient(bytes, MB);
        join2(q.as_str(), " MB")
    } else if bytes >= KB {
        join2(decimal_text(bytes / KB).as_str(), " KB")
    } else {
        join2(decimal_text(bytes).as_str(), " B")
    }
}

// ---------------------------------------------------------------------------
// What deduplication is for
// ---------------------------------------------------------------------------

/// The device can be reached at the address with this text.
pub open spec fn is_at(d: Device, address: Seq<char>) -> bool {
    ||| d.pairing_address matches Some(e) && e.ip.text@ == address
    ||| d.reconnect_address matches Some(e) && e.ip.text@ == address
    ||| d.usbmuxd_device matches Some(u) && (u.connection_type matches Connection::Network(ip)
        && ip.text@ == address)
}

proof fn lemma_prefixes_differ()
    ensures
        "udid:"@.len() > 0 && "udid:"@[0] == 'u',
        "pairing:"@.len() > 0 && "pairing:"@[0] == 'p',
        "mux:"@.len() > 0 && "mux:"@[0] == 'm',
        "network-ip:"@.len() > 0 && "network-ip:"@[0] == 'n',
{
    reveal_strlit("udid:");
    reveal_strlit("pairing:");
    reveal_strlit("mux:");
    reveal_strlit("network-ip:");
}

proof fn lemma_same_rest(head: Seq<char>, a: Seq<char>, b: Seq<char>)
    requires
        head + a == head + b,
    ensures
        a == b,
{
    assert(a =~= (head + a).skip(head.len() as int));
    assert(b =~= (head + b).skip(head.len() as int));
}

/// Two records are of one device exactly where they have the same valid identifier, the same pairing
/// identity, both whatever the case of letters, the same number on the multiplexing daemon, or an
/// address in common.
pub proof fn law_records_of_one_device(a: Device, b: Device)
    ensures
        share_key(a, b) <==> {
            ||| device_udid(a.udid@) && device_udid(b.udid@) && lower(a.udid@) == lower(b.udid@)
            ||| match (a.pairing_identity, b.pairing_identity) {
                (Some(x), Some(y)) => x@.len() > 0 && y@.len() > 0 && lower(x@) == lower(y@),
                _ => false,
            }
            ||| match (a.usbmuxd_device, b.usbmuxd_device) {
                (Some(x), Some(y)) => x.device_id == y.device_id,
                _ => false,
            }
            ||| exists|address: Seq<char>| #[trigger] is_at(a, address) && is_at(b, address)
        },
{
    lemma_prefixes_differ();
    if share_key(a, b) {
        let k = choose|k: Seq<char>| #[trigger] device_keys(a).contains(k) && device_keys(b).contains(k);
        lemma_device_keys(a, k);
        lemma_device_keys(b, k);
        lemma_key_of(a, k);
        lemma_key_of(b, k);
        if k[0] == 'u' {
            lemma_same_rest("udid:"@, lower(a.udid@), lower(b.udid@));
        } else if k[0] == 'p' {
            lemma_same_rest(
                "pairing:"@,
                lower(a.pairing_identity->0@),
                lower(b.pairing_identity->0@),
            );
        } else if k[0] == 'm' {
            let x = a.usbmuxd_device->0.device_id as nat;
            let y = b.usbmuxd_device->0.device_id as nat;
            lemma_same_rest("mux:"@, decimal(x), decimal(y));
            crate::text::law_decimal_is_unique(x, y);
        } else {
            let address = k.skip("network-ip:"@.len() as int);
            assert(is_at(a, address) && is_at(b, address));
        }
    }
    if device_udid(a.udid@) && device_udid(b.udid@) && lower(a.udid@) == lower(b.udid@) {
        let k = "udid:"@ + lower(a.udid@);
        assert(udid_keys(a)[0] == k && udid_keys(b)[0] == k);
        lemma_device_keys(a, k);
        lemma_device_keys(b, k);
        assert(device_keys(a).contains(k) && device_keys(b).contains(k));
    }
    if a.pairing_identity is Some && b.pairing_identity is Some && a.pairing_identity->0@.len() > 0
        && b.pairing_identity->0@.len() > 0 && lower(a.pairing_identity->0@) == lower(
        b.pairing_identity->0@,
    ) {
        let k = "pairing:"@ + lower(a.pairing_identity->0@);
        assert(identity_keys(a)[0] == k && identity_keys(b)[0] == k);
        lemma_device_keys(a, k);
        lemma_device_keys(b, k);
        assert(device_keys(a).contains(k) && device_keys(b).contains(k));
    }
    if a.usbmuxd_device is Some && b.usbmuxd_device is Some && a.usbmuxd_device->0.device_id
        == b.usbmuxd_device->0.device_id {
        let k = "mux:"@ + decimal(a.usbmuxd_device->0.device_id as nat);
        assert(mux_keys(a)[0] == k && mux_keys(b)[0] == k);
        lemma_device_keys(a, k);
        lemma_device_keys(b, k);
        assert(device_keys(a).contains(k) && device_keys(b).contains(k));
    }
    if exists|address: Seq<char>| #[trigger] is_at(a, address) && is_at(b, address) {
        let address = choose|address: Seq<char>| #[trigger] is_at(a, address) && is_at(b, address);
        lemma_address_key(a, address);
        lemma_address_key(b, address);
        let k = "network-ip:"@ + address;
        assert(device_keys(a).contains(k) && device_keys(b).contains(k));
    }
}

proof fn lemma_address_key(d: Device, address: Seq<char>)
    requires
        is_at(d, address),
    ensures
        device_keys(d).contains("network-ip:"@ + address),
{
    let k = "network-ip:"@ + address;
    lemma_device_keys(d, k);
    if d.pairing_address matches Some(e) && e.ip.text@ == address {
        assert(address_keys(d.pairing_address)[0] == k);
    } else if d.reconnect_address matches Some(e) && e.ip.text@ == address {
        assert(address_keys(d.reconnect_address)[0] == k);
    } else {
        assert(mux_keys(d)[1] == k);
    }
}

/// What the first letter of a key tells.
proof fn lemma_key_of(d: Device, k: Seq<char>)
    requires
        device_keys(d).contains(k),
    ensures
        k.len() > 0,
        k[0] == 'u' ==> device_udid(d.udid@) && k == "udid:"@ + lower(d.udid@),
        k[0] == 'p' ==> (d.pairing_identity matches Some(i) && i@.len() > 0 && k == "pairing:"@ + lower(
            i@,
        )),
        k[0] == 'm' ==> (d.usbmuxd_device matches Some(u) && k == "mux:"@ + decimal(
            u.device_id as nat,
        )),
        k[0] != 'u' && k[0] != 'p' && k[0] != 'm' ==> is_at(
            d,
            k.skip("network-ip:"@.len() as int),
        ),
{
    lemma_prefixes_differ();
    lemma_device_keys(d, k);
    let n = "network-ip:"@.len() as int;
    if udid_keys(d).contains(k) {
    } else if identity_keys(d).contains(k) {
    } else if mux_keys(d).contains(k) {
        let u = d.usbmuxd_device->0;
        if k != "mux:"@ + decimal(u.device_id as nat) {
            let ip = u.connection_type->Network_0;
            assert(k == "network-ip:"@ + ip.text@);
            assert(k.skip(n) =~= ip.text@);
        } else {
            assert(k[0] == 'm');
        }
    } else if address_keys(d.pairing_address).contains(k) {
        assert(k.skip(n) =~= d.pairing_address->0.ip.text@);
    } else {
        assert(k.skip(n) =~= d.reconnect_address->0.ip.text@);
    }
}

/// A device is listed once: no two of the result have the same valid identifier or the same pairing
/// identity, whatever the case of letters, the same number on the multiplexing daemon, or an address
/// in common.
pub proof fn law_each_device_is_listed_once(devices: Seq<Device>, i: int, j: int)
    requires
        0 <= i < grouped(devices, devices.len() as int).len(),
        0 <= j < grouped(devices, devices.len() as int).len(),
        i != j,
    ensures
        ({
            let a = grouped(devices, devices.len() as int)[i];
            let b = grouped(devices, devices.len() as int)[j];
            &&& !(device_udid(a.udid@) && device_udid(b.udid@) && lower(a.udid@) == lower(b.udid@))
            &&& match (a.pairing_identity, b.pairing_identity) {
                (Some(x), Some(y)) => x@.len() > 0 && y@.len() > 0 ==> lower(x@) != lower(y@),
                _ => true,
            }
            &&& match (a.usbmuxd_device, b.usbmuxd_device) {
                (Some(x), Some(y)) => x.device_id != y.device_id,
                _ => true,
            }
            &&& forall|address: Seq<char>| !(#[trigger] is_at(a, address) && is_at(b, address))
        }),
{
    let n = devices.len() as int;
    law_deduplicated_devices_are_apart(devices, n);
    law_records_of_one_device(grouped(devices, n)[i], grouped(devices, n)[j]);
}

/// Two records of which neither has anything in common with the other are two devices, in their
/// order.
pub proof fn law_unrelated_records_stay(a: Device, b: Device)
    requires
        !(device_udid(a.udid@) && device_udid(b.udid@) && lower(a.udid@) == lower(b.udid@)),
        match (a.pairing_identity, b.pairing_identity) {
            (Some(x), Some(y)) => x@.len() > 0 && y@.len() > 0 ==> lower(x@) != lower(y@),
            _ => true,
        },
        match (a.usbmuxd_device, b.usbmuxd_device) {
            (Some(x), Some(y)) => x.device_id != y.device_id,
            _ => true,
        },
        forall|address: Seq<char>| !(#[trigger] is_at(a, address) && is_at(b, address)),
    ensures
        grouped(seq![a, b], 2) == seq![a, b],
{
    let all = seq![a, b];
    law_records_of_one_device(a, b);
    lemma_share_symmetric(a, b);
    assert(apart(all));
    law_distinct_devices_stay(all, 2);
    assert(all.take(2) =~= all);
}

/// `r` knows of each thing that `d` knows of.
pub open spec fn knows_all(r: Device, d: Device) -> bool {
    &&& device_udid(d.udid@) ==> device_udid(r.udid@)
    &&& d.name@.len() > 0 ==> r.name@.len() > 0
    &&& d.product_type is Some ==> r.product_type is Some
    &&& d.device_class is Some ==> r.device_class is Some
    &&& d.os_version is Some ==> r.os_version is Some
    &&& d.serial_number is Some ==> r.serial_number is Some
    &&& d.pairing_address is Some ==> r.pairing_address is Some
    &&& d.reconnect_address is Some ==> r.reconnect_address is Some
    &&& d.pairing_identity is Some ==> r.pairing_identity is Some
    &&& d.pairing_cache_dir is Some ==> r.pairing_cache_dir is Some
    &&& d.core_device_authenticated ==> r.core_device_authenticated
    &&& d.is_mac ==> r.is_mac
    &&& d.device_id != 0 ==> r.device_id != 0
}

proof fn lemma_absorbed_knows(groups: Seq<Device>, device: Device, start: Device, from: int)
    requires
        0 <= from <= groups.len(),
    ensures
        knows_all(absorbed(groups, device, start, from), start),
        forall|i: int|
            from <= i < groups.len() && share_key(#[trigger] groups[i], device) ==> knows_all(
                absorbed(groups, device, start, from),
                groups[i],
            ),
    decreases groups.len() - from,
{
    if from < groups.len() {
        lemma_absorbed_knows(groups, device, start, from + 1);
    }
}

proof fn lemma_untouched_stays(groups: Seq<Device>, device: Device, from: int, i: int) -> (x: int)
    requires
        0 <= from <= i < groups.len(),
        !share_key(groups[i], device),
    ensures
        0 <= x < untouched(groups, device, from).len(),
        untouched(groups, device, from)[x] == groups[i],
    decreases groups.len() - from,
{
    if i == from {
        0
    } else {
        let x = lemma_untouched_stays(groups, device, from + 1, i);
        if share_key(groups[from], device) {
            x
        } else {
            x + 1
        }
    }
}

/// Some device of `groups` knows of each thing that `d` knows of.
pub open spec fn is_represented(groups: Seq<Device>, d: Device) -> bool {
    exists|j: int| 0 <= j < groups.len() && knows_all(#[trigger] groups[j], d)
}

proof fn lemma_with_device_represents(groups: Seq<Device>, device: Device, d: Device)
    requires
        is_represented(groups, d) || d == device,
    ensures
        is_represented(with_device(groups, device), d),
{
    let first = first_match(groups, device, 0);
    lemma_first_match(groups, device, 0);
    let after = with_device(groups, device);
    if first >= groups.len() {
        if d == device {
            assert(knows_all(after[groups.len() as int], d));
        } else {
            let j = choose|j: int| 0 <= j < groups.len() && knows_all(#[trigger] groups[j], d);
            assert(after[j] == groups[j]);
            assert(knows_all(after[j], d));
        }
    } else {
        let start = merged(groups[first], device);
        lemma_absorbed_knows(groups, device, start, first + 1);
        let all = absorbed(groups, device, start, first + 1);
        assert(after[first] == all);
        if d == device {
            assert(knows_all(start, device));
            assert(knows_all(after[first], d));
        } else {
            let j = choose|j: int| 0 <= j < groups.len() && knows_all(#[trigger] groups[j], d);
            if j < first {
                assert(after[j] == groups[j]);
                assert(knows_all(after[j], d));
            } else if j == first {
                assert(knows_all(start, groups[first]));
                assert(knows_all(after[first], d));
            } else if share_key(groups[j], device) {
                assert(knows_all(all, groups[j]));
                assert(knows_all(after[first], d));
            } else {
                let x = lemma_untouched_stays(groups, device, first + 1, j);
                assert(after[first + 1 + x] == groups[j]);
                assert(knows_all(after[first + 1 + x], d));
            }
        }
    }
}

/// No record is lost: some device of the result knows of each thing that the record knows of.
pub proof fn law_no_record_is_lost(devices: Seq<Device>, n: int, k: int)
    requires
        0 <= k < n <= devices.len(),
    ensures
        exists|j: int|
            0 <= j < grouped(devices, n).len() && knows_all(
                #[trigger] grouped(devices, n)[j],
                devices[k],
            ),
    decreases n,
{
    if k < n - 1 {
        law_no_record_is_lost(devices, n - 1, k);
        assert(is_represented(grouped(devices, n - 1), devices[k]));
    }
    lemma_with_device_represents(grouped(devices, n - 1), devices[n - 1], devices[k]);
    assert(is_represented(grouped(devices, n), devices[k]));
}

/// Where one record knows of all that the other knows of, and of more, its texts are kept, whichever
/// of the two comes first.
pub proof fn law_fuller_record_wins(a: Device, b: Device)
    requires
        knows_all(a, b),
        b.usbmuxd_device is Some ==> a.usbmuxd_device is Some,
        ({
            ||| device_udid(a.udid@) && !device_udid(b.udid@)
            ||| a.pairing_identity is Some && b.pairing_identity is None
            ||| a.usbmuxd_device is Some && b.usbmuxd_device is None
            ||| a.core_device_authenticated && !b.core_device_authenticated
            ||| a.product_type is Some && b.product_type is None
            ||| a.device_class is Some && b.device_class is None
            ||| a.os_version is Some && b.os_version is None
            ||| a.serial_number is Some && b.serial_number is None
            ||| a.reconnect_address is Some && b.reconnect_address is None
            ||| a.pairing_address is Some && b.pairing_address is None
        }),
    ensures
        forall|m: Device|
            m == merged(a, b) || m == merged(b, a) ==> {
                &&& #[trigger] knows_all(m, a)
                &&& a.name@.len() > 0 ==> m.name == a.name
                &&& device_udid(a.udid@) ==> m.udid == a.udid
                &&& a.product_type is Some ==> m.product_type == a.product_type
                &&& a.os_version is Some ==> m.os_version == a.os_version
                &&& a.serial_number is Some ==> m.serial_number == a.serial_number
                &&& a.pairing_identity is Some ==> m.pairing_identity == a.pairing_identity
                &&& a.pairing_address is Some ==> m.pairing_address == a.pairing_address
                &&& a.reconnect_address is Some ==> m.reconnect_address == a.reconnect_address
            },
{
    assert(quality(a) > quality(b)) by {
        reveal(points);
    }
}

/// Merging makes nothing up: each thing that the merged record holds is one of the two.
pub proof fn law_merging_makes_nothing_up(a: Device, b: Device)
    ensures
        ({
            let m = merged(a, b);
            &&& m.name == a.name || m.name == b.name
            &&& m.udid == a.udid || m.udid == b.udid
            &&& m.device_id == a.device_id || m.device_id == b.device_id
            &&& m.product_type == a.product_type || m.product_type == b.product_type
            &&& m.device_class == a.device_class || m.device_class == b.device_class
            &&& m.os_version == a.os_version || m.os_version == b.os_version
            &&& m.serial_number == a.serial_number || m.serial_number == b.serial_number
            &&& m.usbmuxd_device is None || m.usbmuxd_device == a.usbmuxd_device || m.usbmuxd_device
                == b.usbmuxd_device
            &&& m.pairing_address == a.pairing_address || m.pairing_address == b.pairing_address
            &&& m.reconnect_address == a.reconnect_address || m.reconnect_address
                == b.reconnect_address
            &&& m.pairing_identity == a.pairing_identity || m.pairing_identity == b.pairing_identity
            &&& m.pairing_cache_dir == a.pairing_cache_dir || m.pairing_cache_dir
                == b.pairing_cache_dir
            &&& m.is_mac ==> a.is_mac || b.is_mac
            &&& m.core_device_authenticated ==> a.core_device_authenticated
                || b.core_device_authenticated
        }),
{
}

/// A record that is merged with itself stays as it is, but for the daemon's part in a television that
/// is reached by its pairing.
pub proof fn law_merging_with_itself(d: Device)
    ensures
        merged(d, d) == (Device { usbmuxd_device: merged(d, d).usbmuxd_device, ..d }),
        d.pairing_identity is None ==> merged(d, d) == d,
{
}

/// Where two records know of the same things, the first keeps its texts.
pub proof fn law_first_record_wins_a_tie(a: Device, b: Device)
    requires
        knows_all(a, b) && knows_all(b, a),
        a.usbmuxd_device is Some <==> b.usbmuxd_device is Some,
    ensures
        a.name@.len() > 0 ==> merged(a, b).name == a.name,
        device_udid(a.udid@) ==> merged(a, b).udid == a.udid,
        a.product_type is Some ==> merged(a, b).product_type == a.product_type,
        a.os_version is Some ==> merged(a, b).os_version == a.os_version,
        a.pairing_address is Some ==> merged(a, b).pairing_address == a.pairing_address,
        a.reconnect_address is Some ==> merged(a, b).reconnect_address == a.reconnect_address,
        a.pairing_identity is Some ==> merged(a, b).pairing_identity == a.pairing_identity,
{
    assert(quality(a) == quality(b)) by {
        reveal(points);
    }
}

/// Records of a television that is reached by its pairing have no part of the daemon once they are
/// merged; records without a pairing keep it.
pub proof fn law_television_leaves_the_daemon(a: Device, b: Device)
    ensures
        a.pairing_identity is None && b.pairing_identity is None ==> (merged(
            a,
            b,
        ).usbmuxd_device is Some <==> a.usbmuxd_device is Some || b.usbmuxd_device is Some),
        a.pairing_identity is Some && b.pairing_identity is Some && (a.product_type matches Some(p)
            && is_prefix("AppleTV"@, p@)) && (b.product_type matches Some(q) && is_prefix(
            "AppleTV"@,
            q@,
        )) ==> merged(a, b).usbmuxd_device is None,
{
}

} // verus!
