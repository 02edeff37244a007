//! The screen on which an Apple TV is paired: what it holds, and what each message does to it.
use crate::device::{new_apple_tv, Device, Endpoint};
use crate::discovery::{
    DeviceType, DiscoveredDevice, REMOTEPAIRING_MANUAL_PAIRING_SERVICE, REMOTEPAIRING_SERVICE,
};
use crate::pairing::six_digits;
use crate::text::{
    chars_of, decimal, decimal_text, is_digit, join2, join3, join4, replace_char, same_text, texts,
    whole_string, with_char_replaced,
};
use vstd::prelude::*;

verus! {

// ---------------------------------------------------------------------------
// The screen
// ---------------------------------------------------------------------------

/// A line of text on how things stand.
#[derive(Debug)]
pub struct StatusMessage {
    pub content: String,
    pub is_error: bool,
}

impl StatusMessage {
    pub fn success(content: &str) -> (r: StatusMessage)
        ensures
            r.content@ == content@,
            !r.is_error,
    {
        StatusMessage { content: content.to_string(), is_error: false }
    }

    pub fn error(content: &str) -> (r: StatusMessage)
        ensures
            r.content@ == content@,
            r.is_error,
    {
        StatusMessage { content: content.to_string(), is_error: true }
    }

    pub fn info(content: &str) -> (r: StatusMessage)
        ensures
            r.content@ == content@,
            !r.is_error,
    {
        StatusMessage { content: content.to_string(), is_error: false }
    }
}

/// What happens to the screen.
#[derive(Debug)]
pub enum Message {
    Scan,
    ScanComplete(Result<Vec<DiscoveredDevice>, String>),
    SelectDevice(String),
    PinChanged(String),
    Pair,
    Reconnect,
    PinRequested(bool),
    SubmitPin,
    CancelPin,
    PairComplete(Result<Device, String>),
    ReconnectComplete(Result<Device, String>),
    Forget,
    ForgetComplete(Result<Device, String>),
    StartOver,
}

/// What is to be done on account of a message.
#[derive(Debug)]
pub enum ScreenTask {
    Nothing,
    Scan,
    /// Pair with this device; the PIN is asked for through the screen.
    Pair(Device),
    Reconnect(Device),
    /// Hand this PIN to the pairing that waits for one; an empty one gives it up.
    SendPin(String),
    Forget(Device),
}

/// The screen on which an Apple TV is paired.
#[derive(Debug)]
pub struct TvOsPairingScreen {
    pub discovered: Vec<DiscoveredDevice>,
    pub selected_label: Option<String>,
    pub pin: String,
    pub scanning: bool,
    pub pairing: bool,
    pub reconnecting: bool,
    pub awaiting_pin: bool,
    /// A pairing runs that takes a PIN.
    pub has_pin_channel: bool,
    pub status: Option<StatusMessage>,
    pub paired_device: Option<Device>,
}

/// Digits alone.
pub open spec fn all_digits(s: Seq<char>) -> bool {
    forall|i: int| 0 <= i < s.len() ==> is_digit(#[trigger] s[i])
}

/// The digits among the first `n` characters.
pub open spec fn digits_among(s: Seq<char>, n: int) -> Seq<char>
    decreases n,
{
    if n <= 0 {
        seq![]
    } else if is_digit(s[n - 1]) {
        digits_among(s, n - 1).push(s[n - 1])
    } else {
        digits_among(s, n - 1)
    }
}

/// The first six digits of a text.
pub open spec fn six_of(s: Seq<char>) -> Seq<char> {
    let d = digits_among(s, s.len() as int);
    if d.len() > 6 {
        d.take(6)
    } else {
        d
    }
}

/// The host name of a finding, else its name with hyphens for spaces.
pub open spec fn identity_of(d: DiscoveredDevice) -> Seq<char> {
    if d.hostname@.len() == 0 {
        with_char_replaced(d.name@, ' ', '-')
    } else {
        d.hostname@
    }
}

/// A finding in the list.
pub open spec fn label_of(d: DiscoveredDevice) -> Seq<char> {
    "[WiFi] "@ + d.name@ + " (tvOS) ("@ + identity_of(d) + ")"@
}

/// The labels of findings.
pub open spec fn labels(v: Seq<DiscoveredDevice>) -> Seq<Seq<char>> {
    v.map_values(|d: DiscoveredDevice| label_of(d))
}

/// The number of different texts among the first `n`.
pub open spec fn distinct_count(v: Seq<Seq<char>>, n: int) -> int
    decreases n,
{
    if n <= 0 {
        0
    } else if v.take(n - 1).contains(v[n - 1]) {
        distinct_count(v, n - 1)
    } else {
        distinct_count(v, n - 1) + 1
    }
}

/// The number of different texts is the size of the set of them.
pub proof fn law_distinct_count(v: Seq<Seq<char>>, n: int)
    requires
        0 <= n <= v.len(),
    ensures
        v.take(n).to_set().finite(),
        distinct_count(v, n) == v.take(n).to_set().len(),
    decreases n,
{
    if n == 0 {
        assert(v.take(0).to_set() =~= Set::empty());
    } else {
        law_distinct_count(v, n - 1);
        let before = v.take(n - 1);
        let after = v.take(n);
        let x = v[n - 1];
        assert(after.to_set() =~= before.to_set().insert(x)) by {
            assert forall|y: Seq<char>| after.contains(y) == (before.contains(y) || y == x) by {
                if before.contains(y) {
                    let j = choose|j: int| 0 <= j < before.len() && before[j] == y;
                    assert(after[j] == y);
                }
                assert(after[n - 1] == x);
                if after.contains(y) {
                    let j = choose|j: int| 0 <= j < after.len() && after[j] == y;
                    if j < n - 1 {
                        assert(before[j] == y);
                    }
                }
            }
        }
    }
}

/// The Apple TVs among the first `n` findings.
pub open spec fn tvs_among(v: Seq<DiscoveredDevice>, n: int) -> Seq<DiscoveredDevice>
    decreases n,
{
    if n <= 0 {
        seq![]
    } else if v[n - 1].device_type == DeviceType::AppleTV {
        tvs_among(v, n - 1).push(v[n - 1])
    } else {
        tvs_among(v, n - 1)
    }
}

/// The status says `content`.
pub open spec fn status_says(
    status: Option<StatusMessage>,
    content: Seq<char>,
    is_error: bool,
) -> bool {
    status matches Some(s) && s.content@ == content && s.is_error == is_error
}

/// Every service, or one with a given name.
pub open spec fn is_entry(d: DiscoveredDevice, label: Seq<char>, service: Option<Seq<char>>) -> bool {
    label_of(d) == label && (service matches Some(s) ==> d.service_type@ == s)
}

/// The index of the first finding at or after `from` with a label and a service, or the number of
/// findings.
pub open spec fn entry_index(
    v: Seq<DiscoveredDevice>,
    label: Seq<char>,
    service: Option<Seq<char>>,
    from: int,
) -> int
    decreases v.len() - from,
{
    if from >= v.len() || is_entry(v[from], label, service) {
        from
    } else {
        entry_index(v, label, service, from + 1)
    }
}

impl TvOsPairingScreen {
    /// The PIN is made of no more than six digits.
    pub open spec fn wf(self) -> bool {
        all_digits(self.pin@) && self.pin@.len() <= 6
    }

    /// The first finding with the selected label and a service.
    pub open spec fn entry(self, service: Option<Seq<char>>) -> Option<DiscoveredDevice> {
        match self.selected_label {
            Some(label) => {
                let i = entry_index(self.discovered@, label@, service, 0);
                if i < self.discovered@.len() {
                    Some(self.discovered@[i])
                } else {
                    None
                }
            },
            None => None,
        }
    }

    /// The finding through which the selected device can be paired.
    pub open spec fn manual_entry(self) -> Option<DiscoveredDevice> {
        self.entry(Some(REMOTEPAIRING_MANUAL_PAIRING_SERVICE@))
    }

    /// The finding through which the selected device can be reconnected.
    pub open spec fn service_entry(self) -> Option<DiscoveredDevice> {
        self.entry(Some(REMOTEPAIRING_SERVICE@))
    }

    pub fn new() -> (r: TvOsPairingScreen)
        ensures
            r.discovered@.len() == 0,
            r.selected_label is None,
            r.pin@.len() == 0,
            !r.scanning && !r.pairing && !r.reconnecting && !r.awaiting_pin && !r.has_pin_channel,
            r.status is None,
            r.paired_device is None,
            r.wf(),
    {
        TvOsPairingScreen {
            discovered: Vec::new(),
            selected_label: None,
            pin: String::new(),
            scanning: false,
            pairing: false,
            reconnecting: false,
            awaiting_pin: false,
            has_pin_channel: false,
            status: None,
            paired_device: None,
        }
    }

    pub fn device_label(device: &DiscoveredDevice) -> (r: String)
        ensures
            r@ == label_of(*device),
    {
        let host: String = TvOsPairingScreen::pairing_identity(device);
        join2(
            join4("[WiFi] ", device.name.as_str(), " (tvOS) (", host.as_str()).as_str(),
            ")",
        )
    }

    pub fn pairing_identity(device: &DiscoveredDevice) -> (r: String)
        ensures
            r@ == identity_of(*device),
    {
        if chars_of(device.hostname.as_str()).len() == 0 {
            replace_char(device.name.as_str(), ' ', '-')
        } else {
            device.hostname.clone()
        }
    }

    fn find_entry(&self, service: Option<&str>) -> (r: Option<&DiscoveredDevice>)
        ensures
            match r {
                Some(d) => self.entry(crate::platform::opt_str(service)) == Some(*d),
                None => self.entry(crate::platform::opt_str(service)) is None,
            },
    {
        let label: &String = match &self.selected_label {
            Some(label) => label,
            None => {
                return None;
            },
        };
        let ghost wanted = crate::platform::opt_str(service);
        let mut i: usize = 0;
        while i < self.discovered.len()
            invariant
                i <= self.discovered@.len(),
                self.selected_label == Some(*label),
                wanted == crate::platform::opt_str(service),
                entry_index(self.discovered@, label@, wanted, 0) == entry_index(
                    self.discovered@,
                    label@,
                    wanted,
                    i as int,
                ),
            decreases self.discovered@.len() - i,
        {
            let d: &DiscoveredDevice = &self.discovered[i];
            let fits: bool = match service {
                Some(s) => same_text(d.service_type.as_str(), s),
                None => true,
            };
            if fits && same_text(TvOsPairingScreen::device_label(d).as_str(), label.as_str()) {
                return Some(d);
            }
            i += 1;
        }
        None
    }

    pub fn selected_device(&self) -> (r: Option<&DiscoveredDevice>)
        ensures
            match r {
                Some(d) => self.entry(None) == Some(*d),
                None => self.entry(None) is None,
            },
    {
        self.find_entry(None)
    }

    pub fn manual_pairing_entry(&self) -> (r: Option<&DiscoveredDevice>)
        ensures
            match r {
                Some(d) => self.manual_entry() == Some(*d),
                None => self.manual_entry() is None,
            },
    {
        self.find_entry(Some(REMOTEPAIRING_MANUAL_PAIRING_SERVICE))
    }

    pub fn reconnect_entry(&self) -> (r: Option<&DiscoveredDevice>)
        ensures
            match r {
                Some(d) => self.service_entry() == Some(*d),
                None => self.service_entry() is None,
            },
    {
        self.find_entry(Some(REMOTEPAIRING_SERVICE))
    }
}

fn first_six_digits(s: &str) -> (r: String)
    ensures
        r@ == six_of(s@),
        all_digits(r@),
        r@.len() <= 6,
{
    let chars: Vec<char> = chars_of(s);
    let mut digits: Vec<char> = Vec::new();
    let mut i: usize = 0;
    proof {
        assert(digits@ =~= digits_among(s@, 0));
    }
    while i < chars.len()
        invariant
            chars@ == s@,
            i <= chars@.len(),
            digits@ == digits_among(s@, i as int),
            all_digits(digits@),
        decreases chars@.len() - i,
    {
        let c: char = chars[i];
        if '0' <= c && c <= '9' {
            digits.push(c);
        }
        i += 1;
    }
    if digits.len() > 6 {
        let ghost before = digits@;
        digits.truncate(6);
        proof {
            assert(digits@ =~= before.take(6));
        }
    }
    whole_string(&digits)
}

fn count_labels(v: &Vec<DiscoveredDevice>) -> (r: usize)
    ensures
        r == distinct_count(labels(v@), v@.len() as int),
        r <= v@.len(),
{
    let ghost all = labels(v@);
    let mut n: usize = 0;
    let mut i: usize = 0;
    while i < v.len()
        invariant
            i <= v@.len(),
            n <= i,
            all == labels(v@),
            n == distinct_count(all, i as int),
        decreases v@.len() - i,
    {
        let label: String = TvOsPairingScreen::device_label(&v[i]);
        let mut seen: bool = false;
        let mut j: usize = 0;
        while j < i
            invariant
                j <= i < v@.len(),
                all == labels(v@),
                label@ == all[i as int],
                seen == all.take(j as int).contains(label@),
            decreases i - j,
        {
            if same_text(TvOsPairingScreen::device_label(&v[j]).as_str(), label.as_str()) {
                seen = true;
            }
            proof {
                let before = all.take(j as int);
                let after = all.take(j + 1);
                assert(after =~= before.push(all[j as int]));
                if before.contains(label@) {
                    let k = choose|k: int| 0 <= k < before.len() && before[k] == label@;
                    assert(after[k] == label@);
                }
                assert(after[j as int] == all[j as int]);
                assert(all[j as int] == label_of(v@[j as int]));
                if after.contains(label@) && !before.contains(label@) {
                    let k = choose|k: int| 0 <= k < after.len() && after[k] == label@;
                    if k < j {
                        assert(before[k] == label@);
                    }
                }
            }
            j += 1;
        }
        if !seen {
            n += 1;
        }
        i += 1;
    }
    n
}

fn keep_tvs(v: Vec<DiscoveredDevice>) -> (r: Vec<DiscoveredDevice>)
    ensures
        r@ == tvs_among(v@, v@.len() as int),
{
    let mut r: Vec<DiscoveredDevice> = Vec::new();
    let mut i: usize = 0;
    while i < v.len()
        invariant
            i <= v@.len(),
            r@ == tvs_among(v@, i as int),
        decreases v@.len() - i,
    {
        if v[i].device_type == DeviceType::AppleTV {
            r.push(v[i].clone());
        }
        i += 1;
    }
    r
}

// ---------------------------------------------------------------------------
// Messages
// ---------------------------------------------------------------------------

/// What is said where the device does not wait to be paired.
pub open spec fn not_waiting() -> Seq<char> {
    "This Apple TV isn't showing a pairing PIN. On the Apple TV, open Settings > Remotes and Devices > Remote App and Devices, wait for \"Waiting to Pair...\", then Scan again."@
}

/// What is said after a scan that found `n` devices.
pub open spec fn scan_text(n: int) -> Seq<char> {
    if n == 0 {
        "No Apple TVs found on this network."@
    } else {
        "Found "@ + decimal(n as nat) + " Apple TV(s). Select one to pair."@
    }
}

/// What is said once a pairing was forgotten.
pub open spec fn forgotten() -> Seq<char> {
    "Host pairing removed. The Apple TV may reconnect without a PIN until its remote devices are forgotten."@
}

/// The screen with another status.
pub open spec fn only_status(before: TvOsPairingScreen, after: TvOsPairingScreen) -> bool {
    after == (TvOsPairingScreen { status: after.status, ..before })
}

/// The task is to pair with a device made from a finding.
pub open spec fn pairs_with(
    task: ScreenTask,
    d: DiscoveredDevice,
    reconnect: Option<DiscoveredDevice>,
    cache_dir: Seq<char>,
) -> bool {
    task matches ScreenTask::Pair(device) && (device.pairing_identity matches Some(identity)
        && identity@ == identity_of(d)) && (device.pairing_cache_dir matches Some(dir) && dir@
        == cache_dir) && new_apple_tv(
        device,
        d.name,
        device.pairing_identity->0,
        d.endpoint(),
        match reconnect {
            Some(e) => e.endpoint(),
            None => None,
        },
        device.pairing_cache_dir->0,
    )
}

/// The task is to reconnect to a device made from a finding.
pub open spec fn reconnects_to(task: ScreenTask, d: DiscoveredDevice, cache_dir: Seq<char>) -> bool {
    task matches ScreenTask::Reconnect(device) && (device.pairing_identity matches Some(identity)
        && identity@ == identity_of(d)) && (device.pairing_cache_dir matches Some(dir) && dir@
        == cache_dir) && new_apple_tv(
        device,
        d.name,
        device.pairing_identity->0,
        None,
        d.endpoint(),
        device.pairing_cache_dir->0,
    )
}

/// What the message `Pair` does.
pub open spec fn pair_step(
    before: TvOsPairingScreen,
    cache_dir: Seq<char>,
    after: TvOsPairingScreen,
    task: ScreenTask,
) -> bool {
    match before.manual_entry() {
        None => only_status(before, after) && status_says(after.status, not_waiting(), true) && task
            == ScreenTask::Nothing,
        Some(d) => if d.ip_address is None {
            only_status(before, after) && status_says(
                after.status,
                "Selected device has no IP address."@,
                true,
            ) && task == ScreenTask::Nothing
        } else if d.port is None {
            only_status(before, after) && status_says(
                after.status,
                "Selected device has no port."@,
                true,
            ) && task == ScreenTask::Nothing
        } else {
            &&& after == (TvOsPairingScreen {
                pin: after.pin,
                awaiting_pin: false,
                pairing: true,
                has_pin_channel: true,
                status: after.status,
                ..before
            })
            &&& after.pin@.len() == 0
            &&& status_says(after.status, "Connecting to Apple TV..."@, false)
            &&& pairs_with(task, d, before.service_entry(), cache_dir)
        },
    }
}

/// What the message `Reconnect` does.
pub open spec fn reconnect_step(
    before: TvOsPairingScreen,
    cache_dir: Seq<char>,
    after: TvOsPairingScreen,
    task: ScreenTask,
) -> bool {
    match before.service_entry() {
        None => only_status(before, after) && status_says(
            after.status,
            "This Apple TV is not advertising its reconnect service."@,
            true,
        ) && task == ScreenTask::Nothing,
        Some(d) => if d.ip_address is None {
            only_status(before, after) && status_says(
                after.status,
                "Selected device has no IP address."@,
                true,
            ) && task == ScreenTask::Nothing
        } else if d.port is None {
            only_status(before, after) && status_says(
                after.status,
                "Selected device has no port."@,
                true,
            ) && task == ScreenTask::Nothing
        } else {
            &&& after == (TvOsPairingScreen { reconnecting: true, status: after.status, ..before })
            &&& status_says(after.status, "Reconnecting to Apple TV..."@, false)
            &&& reconnects_to(task, d, cache_dir)
        },
    }
}

/// What the message `Forget` does.
pub open spec fn forget_step(
    before: TvOsPairingScreen,
    cache_dir: Seq<char>,
    after: TvOsPairingScreen,
    task: ScreenTask,
) -> bool {
    &&& only_status(before, after)
    &&& match before.paired_device {
        Some(device) => status_says(after.status, "Removing Apple TV pairing..."@, false) && task
            == ScreenTask::Forget(device),
        None => match before.entry(None) {
            None => status_says(after.status, "Select an Apple TV first."@, true) && task
                == ScreenTask::Nothing,
            Some(d) => status_says(after.status, "Removing Apple TV pairing..."@, false) && (
            task matches ScreenTask::Forget(device) && (device.pairing_identity matches Some(
                identity,
            ) && identity@ == identity_of(d)) && (device.pairing_cache_dir matches Some(dir) && dir@
                == cache_dir) && new_apple_tv(
                device,
                d.name,
                device.pairing_identity->0,
                None,
                None,
                device.pairing_cache_dir->0,
            )),
        },
    }
}

/// What a message does to the screen, and what is to be done on account of it.
pub open spec fn step(
    before: TvOsPairingScreen,
    message: Message,
    cache_dir: Seq<char>,
    after: TvOsPairingScreen,
    task: ScreenTask,
) -> bool {
    match message {
        Message::Scan => {
            &&& after == (TvOsPairingScreen {
                scanning: true,
                status: after.status,
                discovered: after.discovered,
                selected_label: None,
                pin: after.pin,
                ..before
            })
            &&& status_says(after.status, "Scanning for Apple TVs..."@, false)
            &&& after.discovered@.len() == 0
            &&& after.pin@.len() == 0
            &&& task == ScreenTask::Scan
        },
        Message::ScanComplete(Ok(devices)) => {
            let tvs = tvs_among(devices@, devices@.len() as int);
            &&& after == (TvOsPairingScreen {
                scanning: false,
                status: after.status,
                discovered: after.discovered,
                ..before
            })
            &&& after.discovered@ == tvs
            &&& status_says(
                after.status,
                scan_text(distinct_count(labels(tvs), tvs.len() as int)),
                false,
            )
            &&& task == ScreenTask::Nothing
        },
        Message::ScanComplete(Err(e)) => {
            &&& after == (TvOsPairingScreen { scanning: false, status: after.status, ..before })
            &&& status_says(after.status, e@, true)
            &&& task == ScreenTask::Nothing
        },
        Message::SelectDevice(label) => {
            &&& after == (TvOsPairingScreen {
                selected_label: Some(label),
                pin: after.pin,
                status: None,
                ..before
            })
            &&& after.pin@.len() == 0
            &&& task == ScreenTask::Nothing
        },
        Message::PinChanged(s) => {
            &&& after == (TvOsPairingScreen { pin: after.pin, ..before })
            &&& after.pin@ == six_of(s@)
            &&& task == ScreenTask::Nothing
        },
        Message::Pair => pair_step(before, cache_dir, after, task),
        Message::Reconnect => reconnect_step(before, cache_dir, after, task),
        Message::PinRequested(requested) => task == ScreenTask::Nothing && if requested {
            after == (TvOsPairingScreen { awaiting_pin: true, status: after.status, ..before })
                && status_says(after.status, "Enter the code shown on your Apple TV"@, false)
        } else {
            after == before
        },
        Message::SubmitPin => if before.pin@.len() != 6 {
            after == before && task == ScreenTask::Nothing
        } else {
            &&& after == (TvOsPairingScreen { awaiting_pin: false, status: after.status, ..before })
            &&& status_says(after.status, "Verifying..."@, false)
            &&& if before.has_pin_channel {
                task matches ScreenTask::SendPin(p) && p@ == before.pin@
            } else {
                task == ScreenTask::Nothing
            }
        },
        Message::CancelPin => {
            &&& after == (TvOsPairingScreen { awaiting_pin: false, status: after.status, ..before })
            &&& status_says(after.status, "Cancelling pairing..."@, false)
            &&& if before.has_pin_channel {
                task matches ScreenTask::SendPin(p) && p@.len() == 0
            } else {
                task == ScreenTask::Nothing
            }
        },
        Message::PairComplete(Ok(device)) => {
            &&& after == (TvOsPairingScreen {
                pairing: false,
                awaiting_pin: false,
                has_pin_channel: false,
                paired_device: Some(device),
                status: after.status,
                pin: after.pin,
                ..before
            })
            &&& after.pin@.len() == 0
            &&& status_says(after.status, "Paired successfully."@, false)
            &&& task == ScreenTask::Nothing
        },
        Message::PairComplete(Err(e)) => {
            &&& after == (TvOsPairingScreen {
                pairing: false,
                awaiting_pin: false,
                has_pin_channel: false,
                status: after.status,
                ..before
            })
            &&& status_says(after.status, e@, true)
            &&& task == ScreenTask::Nothing
        },
        Message::ReconnectComplete(Ok(device)) => {
            &&& after == (TvOsPairingScreen {
                reconnecting: false,
                paired_device: Some(device),
                status: after.status,
                ..before
            })
            &&& status_says(after.status, "Reconnected successfully."@, false)
            &&& task == ScreenTask::Nothing
        },
        Message::ReconnectComplete(Err(e)) => {
            &&& after == (TvOsPairingScreen { reconnecting: false, status: after.status, ..before })
            &&& status_says(after.status, e@, true)
            &&& task == ScreenTask::Nothing
        },
        Message::Forget => forget_step(before, cache_dir, after, task),
        Message::ForgetComplete(Ok(_)) => {
            &&& after == (TvOsPairingScreen { paired_device: None, status: after.status, ..before })
            &&& status_says(after.status, forgotten(), false)
            &&& task == ScreenTask::Nothing
        },
        Message::ForgetComplete(Err(e)) => {
            &&& only_status(before, after)
            &&& status_says(after.status, e@, true)
            &&& task == ScreenTask::Nothing
        },
        Message::StartOver => {
            &&& after == (TvOsPairingScreen {
                paired_device: None,
                discovered: after.discovered,
                selected_label: None,
                pin: after.pin,
                awaiting_pin: false,
                has_pin_channel: false,
                reconnecting: false,
                status: None,
                ..before
            })
            &&& after.discovered@.len() == 0
            &&& after.pin@.len() == 0
            &&& task == ScreenTask::Nothing
        },
    }
}

fn finding_endpoint(d: &DiscoveredDevice) -> (r: Option<Endpoint>)
    ensures
        r == d.endpoint(),
{
    match (&d.ip_address, d.port) {
        (Some(ip), Some(port)) => Some(Endpoint { ip: ip.clone(), port }),
        _ => None,
    }
}

impl TvOsPairingScreen {
    fn complain(&mut self, content: &str) -> (r: ScreenTask)
        ensures
            only_status(*old(self), *final(self)),
            status_says(final(self).status, content@, true),
            r == ScreenTask::Nothing,
    {
        self.status = Some(StatusMessage::error(content));
        ScreenTask::Nothing
    }

    fn pair(&mut self, cache_dir: &str) -> (r: ScreenTask)
        ensures
            pair_step(*old(self), cache_dir@, *final(self), r),
    {
        let d: DiscoveredDevice = match self.manual_pairing_entry() {
            Some(d) => d.clone(),
            None => {
                return self.complain(
                    "This Apple TV isn't showing a pairing PIN. On the Apple TV, open Settings > Remotes and Devices > Remote App and Devices, wait for \"Waiting to Pair...\", then Scan again.",
                );
            },
        };
        if d.ip_address.is_none() {
            return self.complain("Selected device has no IP address.");
        }
        if d.port.is_none() {
            return self.complain("Selected device has no port.");
        }
        let reconnect_address: Option<Endpoint> = match self.reconnect_entry() {
            Some(e) => finding_endpoint(e),
            None => None,
        };
        let identity: String = TvOsPairingScreen::pairing_identity(&d);
        let device: Device = Device::new_tvos_with_addresses(
            d.name.clone(),
            identity,
            finding_endpoint(&d),
            reconnect_address,
            cache_dir.to_string(),
        );
        self.pin = String::new();
        self.awaiting_pin = false;
        self.pairing = true;
        self.has_pin_channel = true;
        self.status = Some(StatusMessage::info("Connecting to Apple TV..."));
        ScreenTask::Pair(device)
    }

    fn reconnect(&mut self, cache_dir: &str) -> (r: ScreenTask)
        ensures
            reconnect_step(*old(self), cache_dir@, *final(self), r),
    {
        let d: DiscoveredDevice = match self.reconnect_entry() {
            Some(d) => d.clone(),
            None => {
                return self.complain("This Apple TV is not advertising its reconnect service.");
            },
        };
        if d.ip_address.is_none() {
            return self.complain("Selected device has no IP address.");
        }
        if d.port.is_none() {
            return self.complain("Selected device has no port.");
        }
        let identity: String = TvOsPairingScreen::pairing_identity(&d);
        let device: Device = Device::new_tvos_with_addresses(
            d.name.clone(),
            identity,
            None,
            finding_endpoint(&d),
            cache_dir.to_string(),
        );
        self.reconnecting = true;
        self.status = Some(StatusMessage::info("Reconnecting to Apple TV..."));
        ScreenTask::Reconnect(device)
    }

    fn forget(&mut self, cache_dir: &str) -> (r: ScreenTask)
        ensures
            forget_step(*old(self), cache_dir@, *final(self), r),
    {
        let device: Device = match &self.paired_device {
            Some(device) => device.clone(),
            None => {
                let d: DiscoveredDevice = match self.selected_device() {
                    Some(d) => d.clone(),
                    None => {
                        return self.complain("Select an Apple TV first.");
                    },
                };
                let identity: String = TvOsPairingScreen::pairing_identity(&d);
                Device::new_tvos_with_addresses(
                    d.name.clone(),
                    identity,
                    None,
                    None,
                    cache_dir.to_string(),
                )
            },
        };
        self.status = Some(StatusMessage::info("Removing Apple TV pairing..."));
        ScreenTask::Forget(device)
    }

    fn scan_complete(&mut self, result: Result<Vec<DiscoveredDevice>, String>) -> (r: ScreenTask)
        ensures
            step(*old(self), Message::ScanComplete(result), Seq::empty(), *final(self), r),
    {
        self.scanning = false;
        match result {
            Ok(devices) => {
                let tvs: Vec<DiscoveredDevice> = keep_tvs(devices);
                let count: usize = count_labels(&tvs);
                if count == 0 {
                    self.status = Some(StatusMessage::info("No Apple TVs found on this network."));
                } else {
                    let text: String = join3(
                        "Found ",
                        decimal_text(count as u64).as_str(),
                        " Apple TV(s). Select one to pair.",
                    );
                    self.status = Some(StatusMessage::info(text.as_str()));
                }
                self.discovered = tvs;
            },
            Err(e) => {
                self.status = Some(StatusMessage { content: e, is_error: true });
            },
        }
        ScreenTask::Nothing
    }

    /// Takes a message. Returns what is to be done on account of it; records are kept in
    /// `cache_dir`.
    pub fn update(&mut self, message: Message, cache_dir: &str) -> (r: ScreenTask)
        requires
            old(self).wf(),
        ensures
            final(self).wf(),
            step(*old(self), message, cache_dir@, *final(self), r),
    {
        match message {
            Message::Scan => {
                self.scanning = true;
                self.status = Some(StatusMessage::info("Scanning for Apple TVs..."));
                self.discovered = Vec::new();
                self.selected_label = None;
                self.pin = String::new();
                ScreenTask::Scan
            },
            Message::ScanComplete(result) => self.scan_complete(result),
            Message::SelectDevice(label) => {
                self.selected_label = Some(label);
                self.pin = String::new();
                self.status = None;
                ScreenTask::Nothing
            },
            Message::PinChanged(s) => {
                self.pin = first_six_digits(s.as_str());
                ScreenTask::Nothing
            },
            Message::Pair => self.pair(cache_dir),
            Message::Reconnect => self.reconnect(cache_dir),
            Message::PinRequested(requested) => {
                if requested {
                    self.awaiting_pin = true;
                    self.status = Some(
                        StatusMessage::info("Enter the code shown on your Apple TV"),
                    );
                }
                ScreenTask::Nothing
            },
            Message::SubmitPin => {
                if chars_of(self.pin.as_str()).len() != 6 {
                    return ScreenTask::Nothing;
                }
                self.awaiting_pin = false;
                self.status = Some(StatusMessage::info("Verifying..."));
                if self.has_pin_channel {
                    ScreenTask::SendPin(self.pin.clone())
                } else {
                    ScreenTask::Nothing
                }
            },
            Message::CancelPin => {
                self.awaiting_pin = false;
                self.status = Some(StatusMessage::info("Cancelling pairing..."));
                if self.has_pin_channel {
                    ScreenTask::SendPin(String::new())
                } else {
                    ScreenTask::Nothing
                }
            },
            Message::PairComplete(result) => {
                self.pairing = false;
                self.awaiting_pin = false;
                self.has_pin_channel = false;
                match result {
                    Ok(device) => {
                        self.paired_device = Some(device);
                        self.status = Some(StatusMessage::success("Paired successfully."));
                        self.pin = String::new();
                    },
                    Err(e) => {
                        self.status = Some(StatusMessage { content: e, is_error: true });
                    },
                }
                ScreenTask::Nothing
            },
            Message::ReconnectComplete(result) => {
                self.reconnecting = false;
                match result {
                    Ok(device) => {
                        self.paired_device = Some(device);
                        self.status = Some(StatusMessage::success("Reconnected successfully."));
                    },
                    Err(e) => {
                        self.status = Some(StatusMessage { content: e, is_error: true });
                    },
                }
                ScreenTask::Nothing
            },
            Message::Forget => self.forget(cache_dir),
            Message::ForgetComplete(result) => {
                match result {
                    Ok(_) => {
                        self.paired_device = None;
                        self.status = Some(
                            StatusMessage::success(
                                "Host pairing removed. The Apple TV may reconnect without a PIN until its remote devices are forgotten.",
                            ),
                        );
                    },
                    Err(e) => {
                        self.status = Some(StatusMessage { content: e, is_error: true });
                    },
                }
                ScreenTask::Nothing
            },
            Message::StartOver => {
                self.paired_device = None;
                self.discovered = Vec::new();
                self.selected_label = None;
                self.pin = String::new();
                self.awaiting_pin = false;
                self.has_pin_channel = false;
                self.reconnecting = false;
                self.status = None;
                ScreenTask::Nothing
            },
        }
    }
}

/// A PIN that is handed to a pairing is made of six digits, or gives the pairing up.
pub proof fn law_pins_are_six_digits(
    before: TvOsPairingScreen,
    message: Message,
    cache_dir: Seq<char>,
    after: TvOsPairingScreen,
    task: ScreenTask,
)
    requires
        before.wf(),
        step(before, message, cache_dir, after, task),
        task is SendPin,
    ensures
        task matches ScreenTask::SendPin(p) && (six_digits(p@) || p@.len() == 0),
{
}

/// A device counts as paired only once a pairing or a reconnection has ended well.
pub proof fn law_paired_only_on_success(
    before: TvOsPairingScreen,
    message: Message,
    cache_dir: Seq<char>,
    after: TvOsPairingScreen,
    task: ScreenTask,
)
    requires
        step(before, message, cache_dir, after, task),
        after.paired_device is Some,
        before.paired_device is None,
    ensures
        (message matches Message::PairComplete(Ok(d)) && after.paired_device == Some(d)) || (
        message matches Message::ReconnectComplete(Ok(d)) && after.paired_device == Some(d)),
{
}

/// Of what is typed only digits are taken, at most six, and up to six digits are taken as they are.
pub proof fn law_typed_digits_are_taken(s: Seq<char>)
    ensures
        six_of(s).len() <= 6,
        all_digits(six_of(s)),
        all_digits(s) && s.len() <= 6 ==> six_of(s) == s,
        all_digits(s) && s.len() > 6 ==> six_of(s) == s.take(6),
{
    let n = s.len() as int;
    lemma_digits(s, n);
    if all_digits(s) {
        assert(s.take(n) =~= s);
    }
}

proof fn lemma_digits(s: Seq<char>, n: int)
    requires
        0 <= n <= s.len(),
    ensures
        all_digits(digits_among(s, n)),
        all_digits(s) ==> digits_among(s, n) == s.take(n),
    decreases n,
{
    if n > 0 {
        lemma_digits(s, n - 1);
        if all_digits(s) {
            assert(is_digit(s[n - 1]));
            assert(s.take(n) =~= s.take(n - 1).push(s[n - 1]));
        }
    } else {
        assert(s.take(0) =~= seq![]);
    }
}

/// A scan lists the Apple TVs that it found, all of them and nothing else.
pub proof fn law_scan_lists_apple_tvs(v: Seq<DiscoveredDevice>, n: int)
    requires
        0 <= n <= v.len(),
    ensures
        forall|i: int|
            0 <= i < n && (#[trigger] v[i]).device_type == DeviceType::AppleTV ==> tvs_among(
                v,
                n,
            ).contains(v[i]),
        forall|j: int|
            0 <= j < tvs_among(v, n).len() ==> (#[trigger] tvs_among(v, n)[j]).device_type
                == DeviceType::AppleTV && v.contains(tvs_among(v, n)[j]),
    decreases n,
{
    if n > 0 {
        law_scan_lists_apple_tvs(v, n - 1);
        let head = tvs_among(v, n - 1);
        let all = tvs_among(v, n);
        assert forall|i: int|
            0 <= i < n && (#[trigger] v[i]).device_type == DeviceType::AppleTV implies all.contains(
            v[i],
        ) by {
            if i < n - 1 {
                let j = choose|j: int| 0 <= j < head.len() && head[j] == v[i];
                assert(all[j] == v[i]);
            } else {
                assert(all[head.len() as int] == v[i]);
            }
        }
        assert(v.contains(v[n - 1]));
    }
}

/// Pairing goes to the device that was selected, at the address of its service for pairing; it is
/// begun by its message alone.
pub proof fn law_pairing_goes_to_the_selected_device(
    before: TvOsPairingScreen,
    message: Message,
    cache_dir: Seq<char>,
    after: TvOsPairingScreen,
    task: ScreenTask,
)
    requires
        step(before, message, cache_dir, after, task),
        task is Pair,
    ensures
        message is Pair,
        after.pairing && !after.awaiting_pin,
        exists|k: int|
            0 <= k < before.discovered@.len() && {
                let d = #[trigger] before.discovered@[k];
                &&& before.selected_label matches Some(label) && label@ == label_of(d)
                &&& d.service_type@ == "_remotepairing-manual-pairing._tcp.local."@
                &&& task->Pair_0.name == d.name
                &&& task->Pair_0.pairing_address matches Some(e) && d.ip_address == Some(e.ip)
                    && d.port == Some(e.port)
            },
{
    reveal_strlit("_remotepairing-manual-pairing._tcp.local.");
    let label = before.selected_label->0@;
    let service = Some(REMOTEPAIRING_MANUAL_PAIRING_SERVICE@);
    lemma_entry(before.discovered@, label, service, 0);
    let k = entry_index(before.discovered@, label, service, 0);
    assert(before.discovered@[k] == before.manual_entry()->0);
}

/// Reconnecting goes to the device that was selected, at the address of its service for it; it is
/// begun by its message alone.
pub proof fn law_reconnecting_goes_to_the_selected_device(
    before: TvOsPairingScreen,
    message: Message,
    cache_dir: Seq<char>,
    after: TvOsPairingScreen,
    task: ScreenTask,
)
    requires
        step(before, message, cache_dir, after, task),
        task is Reconnect,
    ensures
        message is Reconnect,
        after.reconnecting,
        exists|k: int|
            0 <= k < before.discovered@.len() && {
                let d = #[trigger] before.discovered@[k];
                &&& before.selected_label matches Some(label) && label@ == label_of(d)
                &&& d.service_type@ == "_remotepairing._tcp.local."@
                &&& task->Reconnect_0.name == d.name
                &&& task->Reconnect_0.reconnect_address matches Some(e) && d.ip_address == Some(e.ip)
                    && d.port == Some(e.port)
                &&& task->Reconnect_0.pairing_address is None
            },
{
    reveal_strlit("_remotepairing._tcp.local.");
    let label = before.selected_label->0@;
    let service = Some(REMOTEPAIRING_SERVICE@);
    lemma_entry(before.discovered@, label, service, 0);
    let k = entry_index(before.discovered@, label, service, 0);
    assert(before.discovered@[k] == before.service_entry()->0);
}

proof fn lemma_entry(
    v: Seq<DiscoveredDevice>,
    label: Seq<char>,
    service: Option<Seq<char>>,
    from: int,
)
    requires
        0 <= from <= v.len(),
    ensures
        from <= entry_index(v, label, service, from) <= v.len(),
        entry_index(v, label, service, from) < v.len() ==> is_entry(
            v[entry_index(v, label, service, from)],
            label,
            service,
        ),
        forall|j: int|
            from <= j < entry_index(v, label, service, from) ==> !is_entry(
                #[trigger] v[j],
                label,
                service,
            ),
    decreases v.len() - from,
{
    if from < v.len() && !is_entry(v[from], label, service) {
        lemma_entry(v, label, service, from + 1);
    }
}

/// A PIN is sent only where it is handed in or given up: what is sent is what was typed, or nothing.
pub proof fn law_sent_pin_is_the_typed_one(
    before: TvOsPairingScreen,
    message: Message,
    cache_dir: Seq<char>,
    after: TvOsPairingScreen,
    task: ScreenTask,
)
    requires
        step(before, message, cache_dir, after, task),
        task is SendPin,
    ensures
        message is SubmitPin || message is CancelPin,
        message is SubmitPin ==> task->SendPin_0@ == before.pin@ && before.pin@.len() == 6,
        message is CancelPin ==> task->SendPin_0@.len() == 0,
        before.has_pin_channel,
        !after.awaiting_pin,
{
}

/// Every error that comes back is shown as an error, in its own words, and leaves nothing running that
/// it ended.
pub proof fn law_errors_are_shown(
    before: TvOsPairingScreen,
    message: Message,
    cache_dir: Seq<char>,
    after: TvOsPairingScreen,
    task: ScreenTask,
    e: String,
)
    requires
        step(before, message, cache_dir, after, task),
        message == Message::ScanComplete(Err(e)) || message == Message::PairComplete(Err(e))
            || message == Message::ReconnectComplete(Err(e)) || message == Message::ForgetComplete(
            Err(e),
        ),
    ensures
        after.status matches Some(s) && s.content@ == e@ && s.is_error,
        message is ScanComplete ==> !after.scanning,
        message is PairComplete ==> !after.pairing && !after.awaiting_pin,
        message is ReconnectComplete ==> !after.reconnecting,
        after.paired_device == before.paired_device,
        task is Nothing,
{
}

/// Starting over, or forgetting, leaves no paired device; starting over leaves nothing chosen and
/// nothing typed either.
pub proof fn law_starting_over_clears(
    before: TvOsPairingScreen,
    message: Message,
    cache_dir: Seq<char>,
    after: TvOsPairingScreen,
    task: ScreenTask,
)
    requires
        step(before, message, cache_dir, after, task),
        message is StartOver || (message matches Message::ForgetComplete(r) && r is Ok),
    ensures
        after.paired_device is None,
        message is StartOver ==> after.discovered@.len() == 0 && after.selected_label is None
            && after.pin@.len() == 0 && !after.awaiting_pin,
{
}

/// A device has the same identity on the screen as in the list of devices, and its label holds its
/// name and its identity.
pub proof fn law_label_tells_name_and_identity(d: DiscoveredDevice)
    ensures
        crate::text::has_text(label_of(d), d.name@),
        crate::text::has_text(label_of(d), identity_of(d)),
        identity_of(d) == crate::discovery::group_identity(crate::discovery::empty_group(d)),
        d.hostname@.len() > 0 ==> identity_of(d) == d.hostname@,
        d.hostname@.len() == 0 ==> !identity_of(d).contains(' '),
{
    let id = identity_of(d);
    crate::text::law_joined_text_is_there("[WiFi] "@, d.name@, " (tvOS) ("@ + id + ")"@);
    assert(label_of(d) =~= "[WiFi] "@ + d.name@ + (" (tvOS) ("@ + id + ")"@));
    crate::text::law_joined_text_is_there("[WiFi] "@ + d.name@ + " (tvOS) ("@, id, ")"@);
    crate::text::law_char_is_replaced(d.name@, ' ', '-');
}

} // verus!
