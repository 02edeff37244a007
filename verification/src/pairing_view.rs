//! What the pairing screen shows.
use crate::device::{info_applied, Device, TvosDeviceInfo};
use crate::discovery::{DeviceType, DiscoveredDevice};
use crate::pairing_screen::{labels, tvs_among, Message, StatusMessage, TvOsPairingScreen};
use crate::provision::{device_udid, is_valid_device_udid};
use crate::sort::{keys_of, lemma_text_key, sort_items, text_key, KeyOrder};
use crate::text::{chars_of, join2, join4, same_text, text_le, text_not_after, texts};
use vstd::prelude::*;

verus! {

/// A button: its label, and the message that pressing it sends; none where it cannot be pressed.
#[derive(Debug)]
pub struct Button {
    pub label: &'static str,
    pub sends: Option<Message>,
}

/// A button with a label that sends a message.
pub open spec fn is_button(b: Button, label: Seq<char>, sends: Option<Message>) -> bool {
    b.label@ == label && b.sends == sends
}

/// The colour of the line on how things stand.
#[derive(Debug, Clone, Copy, PartialEq, Eq, Structural)]
pub enum StatusColor {
    Red,
    Green,
}

/// The line on how things stand.
#[derive(Debug)]
pub struct StatusLine {
    pub content: String,
    pub color: StatusColor,
}

/// The list of devices to choose from. The choice of a label sends [`Message::SelectDevice`].
#[derive(Debug)]
pub struct DeviceList {
    pub labels: Vec<String>,
    pub selected: Option<String>,
    /// What stands there as long as nothing is chosen.
    pub placeholder: &'static str,
}

/// The entry of a PIN. What is typed is sent as [`Message::PinChanged`].
#[derive(Debug)]
pub struct PinEntry {
    pub prompt: &'static str,
    /// What stands in the input as long as it is empty.
    pub placeholder: &'static str,
    pub pin: String,
    /// What ending the input with the return key sends.
    pub on_return: Option<Message>,
    pub submit: Button,
    pub cancel: Button,
}

/// What the screen shows before a device is paired.
#[derive(Debug)]
pub struct PairingView {
    pub scan: Button,
    pub status: Option<StatusLine>,
    /// The devices to choose from, where any were found.
    pub devices: Option<DeviceList>,
    pub pair: Option<Button>,
    pub reconnect: Option<Button>,
    /// There while a PIN is waited for.
    pub pin_entry: Option<PinEntry>,
}

/// What the screen shows once a device is paired.
#[derive(Debug)]
pub struct PairedView {
    pub title: String,
    pub details: String,
    pub hint: &'static str,
    pub status: Option<StatusLine>,
    pub start_over: Button,
    pub forget: Button,
}

/// What the screen shows.
#[derive(Debug)]
pub enum ScreenView {
    Pairing(PairingView),
    Paired(PairedView),
}

/// What is said of a device that was paired.
pub const PAIRED_HINT: &'static str =
    "This Apple TV is now selectable in the device list at the top of the window. To install to it, import an IPA from the main screen the same way you would for any other device. Forgetting here removes Impactor's local pairing record; use the Apple TV's Forget All Remote Devices option to require a new PIN.";

/// The order of texts.
pub struct TextOrder;

impl KeyOrder<String> for TextOrder {
    open spec fn key(&self, item: String) -> Seq<Seq<int>> {
        seq![text_key(item@)]
    }

    fn not_after(&self, a: &String, b: &String) -> (r: bool) {
        proof {
            let x = seq![text_key(a@)];
            let y = seq![text_key(b@)];
            lemma_text_key(a@, b@);
            assert(x.drop_first() =~= seq![]);
            assert(y.drop_first() =~= seq![]);
            assert(x[0] == text_key(a@) && y[0] == text_key(b@));
            reveal_with_fuel(crate::sort::key_le, 2);
            crate::text::lemma_text_le_reflexive(a@);
        }
        text_not_after(a.as_str(), b.as_str())
    }
}

/// `list` holds each of `source` once, in the order of texts.
pub open spec fn sorted_set(list: Seq<Seq<char>>, source: Seq<Seq<char>>) -> bool {
    &&& forall|i: int, j: int|
        0 <= i < j < list.len() ==> #[trigger] list[i] != #[trigger] list[j] && text_le(
            list[i],
            list[j],
        )
    &&& forall|x: Seq<char>| #[trigger] list.contains(x) == source.contains(x)
}

/// The labels, each once, in the order of texts.
pub fn sorted_labels(found: &Vec<DiscoveredDevice>) -> (r: Vec<String>)
    ensures
        sorted_set(texts(r@), labels(tvs_among(found@, found@.len() as int))),
{
    let mut all: Vec<String> = Vec::new();
    let mut i: usize = 0;
    proof {
        assert(texts(all@) =~= labels(tvs_among(found@, 0)));
    }
    while i < found.len()
        invariant
            i <= found@.len(),
            texts(all@) == labels(tvs_among(found@, i as int)),
        decreases found@.len() - i,
    {
        let ghost before = all@;
        let ghost tvs = tvs_among(found@, i as int);
        if found[i].device_type == DeviceType::AppleTV {
            let label: String = TvOsPairingScreen::device_label(&found[i]);
            let ghost shown = label@;
            all.push(label);
            proof {
                assert(texts(all@) =~= texts(before).push(shown));
                assert(labels(tvs.push(found@[i as int])) =~= labels(tvs).push(shown));
            }
        }
        i += 1;
    }
    sorted_texts(all)
}

/// The texts, each once, in their order.
pub fn sorted_texts(all: Vec<String>) -> (r: Vec<String>)
    ensures
        sorted_set(texts(r@), texts(all@)),
{
    let ghost collected = all@;
    let ghost wanted = texts(all@);
    let order: TextOrder = TextOrder;
    let sorted: Vec<String> = sort_items(&order, all);
    let ghost s = texts(sorted@);
    proof {
        crate::sort::lemma_mapped_multiset(sorted@, collected, |x: String| x@);
        s.to_multiset_ensures();
        wanted.to_multiset_ensures();
        assert forall|x: Seq<char>| #[trigger] s.contains(x) == wanted.contains(x) by {
            assert(s.to_multiset().count(x) == wanted.to_multiset().count(x));
        }
        assert forall|a: int, b: int| 0 <= a < b < s.len() implies text_le(
            #[trigger] s[a],
            #[trigger] s[b],
        ) by {
            let keys = keys_of(order, sorted@);
            assert(crate::sort::key_le(keys[a], keys[b]));
            let x = seq![text_key(s[a])];
            let y = seq![text_key(s[b])];
            assert(keys[a] == x && keys[b] == y);
            assert(x[0] == text_key(s[a]) && y[0] == text_key(s[b]));
            assert(x.drop_first() =~= seq![]);
            lemma_text_key(s[a], s[b]);
            crate::text::lemma_text_le_reflexive(s[a]);
        }
    }
    let mut r: Vec<String> = Vec::new();
    let mut k: usize = 0;
    proof {
        assert(texts(r@).len() == 0);
    }
    while k < sorted.len()
        invariant
            k <= sorted@.len(),
            s == texts(sorted@),
            forall|a: int, b: int|
                0 <= a < b < s.len() ==> text_le(#[trigger] s[a], #[trigger] s[b]),
            forall|a: int, b: int|
                0 <= a < b < r@.len() ==> #[trigger] texts(r@)[a] != #[trigger] texts(r@)[b]
                    && text_le(texts(r@)[a], texts(r@)[b]),
            forall|x: Seq<char>| #[trigger] texts(r@).contains(x) == s.take(k as int).contains(x),
            k == 0 ==> r@.len() == 0,
            k > 0 ==> r@.len() > 0 && texts(r@).last() == s[k - 1],
        decreases sorted@.len() - k,
    {
        let new: bool = if r.len() == 0 {
            true
        } else {
            !same_text(r[r.len() - 1].as_str(), sorted[k].as_str())
        };
        let ghost before = texts(r@);
        let ghost x0 = s[k as int];
        proof {
            assert(x0 == sorted@[k as int]@);
            if r@.len() > 0 {
                assert(before.last() == r@[r@.len() - 1]@);
            }
        }
        if new {
            r.push(sorted[k].clone());
        }
        proof {
            let after = texts(r@);
            let taken = s.take(k + 1);
            assert(taken =~= s.take(k as int).push(x0));
            if new {
                assert(after =~= before.push(x0));
            }
            assert forall|x: Seq<char>| #[trigger] after.contains(x) == taken.contains(x) by {
                lemma_pushed(before, x0, x);
                lemma_pushed(s.take(k as int), x0, x);
                if !new {
                    assert(before.contains(before[before.len() - 1]));
                }
            }
            if new {
                assert forall|a: int| 0 <= a < before.len() implies #[trigger] before[a] != x0
                    && text_le(before[a], x0) by {
                    assert(before.contains(before[a]));
                    assert(s.take(k as int).contains(before[a]));
                    let j = choose|j: int| 0 <= j < k && s.take(k as int)[j] == before[a];
                    assert(s[j] == before[a]);
                    assert(text_le(s[j], s[k as int]));
                    if before[a] == x0 {
                        let last = before[before.len() - 1];
                        if a < before.len() - 1 {
                            assert(text_le(before[a], last));
                            assert(last == s[k - 1]);
                            assert(text_le(s[k - 1], s[k as int]));
                            crate::text::lemma_text_le_order(last, x0);
                        }
                    }
                }
            }
        }
        k += 1;
    }
    proof {
        assert(s.take(s.len() as int) =~= s);
    }
    r
}

proof fn lemma_pushed(v: Seq<Seq<char>>, y: Seq<char>, x: Seq<char>)
    ensures
        v.push(y).contains(x) == (v.contains(x) || x == y),
{
    if v.contains(x) {
        let j = choose|j: int| 0 <= j < v.len() && v[j] == x;
        assert(v.push(y)[j] == x);
    }
    assert(v.push(y)[v.len() as int] == y);
}

/// What is shown of a paired device.
pub open spec fn paired_details(device: Device) -> Seq<char> {
    let product = match device.product_type {
        Some(p) => p@,
        None => "Apple TV"@,
    };
    let version = match device.os_version {
        Some(v) => v@,
        None => "tvOS"@,
    };
    product + " · "@ + version + " · UDID "@ + device.udid@
}

/// A button of the pairing view.
pub open spec fn shows_button(
    b: Option<Button>,
    shown: bool,
    label: Seq<char>,
    sends: Option<Message>,
) -> bool {
    match b {
        Some(b) => shown && is_button(b, label, sends),
        None => !shown,
    }
}

/// The line on how things stand: red for an error, green for all else.
pub open spec fn shows_status(line: Option<StatusLine>, status: Option<StatusMessage>) -> bool {
    match (line, status) {
        (Some(l), Some(s)) => l.content@ == s.content@ && l.color == if s.is_error {
            StatusColor::Red
        } else {
            StatusColor::Green
        },
        (None, None) => true,
        _ => false,
    }
}

fn status_line(status: &Option<StatusMessage>) -> (r: Option<StatusLine>)
    ensures
        shows_status(r, *status),
{
    match status {
        Some(s) => Some(
            StatusLine {
                content: s.content.clone(),
                color: if s.is_error {
                    StatusColor::Red
                } else {
                    StatusColor::Green
                },
            },
        ),
        None => None,
    }
}

impl DeviceList {
    /// What the choice of a label sends.
    pub fn chosen(label: String) -> (r: Message)
        ensures
            r == Message::SelectDevice(label),
    {
        Message::SelectDevice(label)
    }
}

impl PinEntry {
    /// What typing sends: the whole content of the input.
    pub fn typed(content: String) -> (r: Message)
        ensures
            r == Message::PinChanged(content),
    {
        Message::PinChanged(content)
    }
}

/// The message where a condition holds.
pub open spec fn sent_if(condition: bool, message: Message) -> Option<Message> {
    if condition {
        Some(message)
    } else {
        None
    }
}

fn send_if(condition: bool, message: Message) -> (r: Option<Message>)
    ensures
        r == sent_if(condition, message),
{
    if condition {
        Some(message)
    } else {
        None
    }
}

impl TvOsPairingScreen {
    /// What the screen shows before a device is paired.
    pub open spec fn shows(self, v: PairingView) -> bool {
        let choosing = self.selected_label is Some && !self.awaiting_pin;
        let idle = !self.pairing && !self.reconnecting;
        let complete = self.pin@.len() == 6;
        &&& is_button(
            v.scan,
            if self.scanning {
                "Scanning..."@
            } else {
                "Scan for Apple TVs"@
            },
            sent_if(!self.scanning, Message::Scan),
        )
        &&& shows_status(v.status, self.status)
        &&& match v.devices {
            Some(list) => {
                &&& self.discovered@.len() > 0
                &&& sorted_set(
                    texts(list.labels@),
                    labels(tvs_among(self.discovered@, self.discovered@.len() as int)),
                )
                &&& list.selected == self.selected_label
                &&& list.placeholder@ == "Select an Apple TV"@
            },
            None => self.discovered@.len() == 0,
        }
        &&& shows_button(
            v.pair,
            choosing && self.manual_entry() is Some,
            if self.pairing {
                "Pairing..."@
            } else {
                "Pair"@
            },
            sent_if(idle, Message::Pair),
        )
        &&& shows_button(
            v.reconnect,
            choosing && self.service_entry() is Some,
            if self.reconnecting {
                "Reconnecting..."@
            } else {
                "Reconnect"@
            },
            sent_if(idle, Message::Reconnect),
        )
        &&& match v.pin_entry {
            Some(entry) => {
                &&& self.awaiting_pin
                &&& entry.prompt@ == "Enter the 6-digit code shown on your Apple TV:"@
                &&& entry.placeholder@ == "123456"@
                &&& entry.pin@ == self.pin@
                &&& entry.on_return == sent_if(complete, Message::SubmitPin)
                &&& is_button(entry.submit, "Submit"@, sent_if(complete, Message::SubmitPin))
                &&& is_button(entry.cancel, "Cancel"@, Some(Message::CancelPin))
            },
            None => !self.awaiting_pin,
        }
    }

    /// What the screen shows once `device` is paired.
    pub open spec fn shows_paired(self, device: Device, v: PairedView) -> bool {
        &&& v.title@ == "Paired with "@ + device.name@
        &&& v.details@ == paired_details(device)
        &&& v.hint@ == PAIRED_HINT@
        &&& shows_status(v.status, self.status)
        &&& is_button(v.start_over, "Pair a Different Apple TV"@, Some(Message::StartOver))
        &&& is_button(v.forget, "Forget Host Pairing"@, Some(Message::Forget))
    }

    pub fn view_pairing(&self) -> (r: PairingView)
        ensures
            self.shows(r),
    {
        let choosing: bool = self.selected_label.is_some() && !self.awaiting_pin;
        let idle: bool = !self.pairing && !self.reconnecting;
        PairingView {
            scan: Button {
                label: if self.scanning {
                    "Scanning..."
                } else {
                    "Scan for Apple TVs"
                },
                sends: send_if(!self.scanning, Message::Scan),
            },
            status: status_line(&self.status),
            devices: if self.discovered.len() > 0 {
                Some(
                    DeviceList {
                        labels: sorted_labels(&self.discovered),
                        selected: self.selected_label.clone(),
                        placeholder: "Select an Apple TV",
                    },
                )
            } else {
                None
            },
            pair: if choosing && self.manual_pairing_entry().is_some() {
                Some(
                    Button {
                        label: if self.pairing {
                            "Pairing..."
                        } else {
                            "Pair"
                        },
                        sends: send_if(idle, Message::Pair),
                    },
                )
            } else {
                None
            },
            reconnect: if choosing && self.reconnect_entry().is_some() {
                Some(
                    Button {
                        label: if self.reconnecting {
                            "Reconnecting..."
                        } else {
                            "Reconnect"
                        },
                        sends: send_if(idle, Message::Reconnect),
                    },
                )
            } else {
                None
            },
            pin_entry: if self.awaiting_pin {
                Some(self.view_pin_entry())
            } else {
                None
            },
        }
    }

    fn view_pin_entry(&self) -> (r: PinEntry)
        ensures
            r.prompt@ == "Enter the 6-digit code shown on your Apple TV:"@,
            r.placeholder@ == "123456"@,
            r.pin@ == self.pin@,
            r.on_return == sent_if(self.pin@.len() == 6, Message::SubmitPin),
            is_button(r.submit, "Submit"@, sent_if(self.pin@.len() == 6, Message::SubmitPin)),
            is_button(r.cancel, "Cancel"@, Some(Message::CancelPin)),
    {
        let complete: bool = chars_of(self.pin.as_str()).len() == 6;
        PinEntry {
            prompt: "Enter the 6-digit code shown on your Apple TV:",
            placeholder: "123456",
            pin: self.pin.clone(),
            on_return: send_if(complete, Message::SubmitPin),
            submit: Button { label: "Submit", sends: send_if(complete, Message::SubmitPin) },
            cancel: Button { label: "Cancel", sends: Some(Message::CancelPin) },
        }
    }

    pub fn view_paired(&self, device: &Device) -> (r: PairedView)
        ensures
            self.shows_paired(*device, r),
    {
        let product: &str = match &device.product_type {
            Some(p) => p.as_str(),
            None => "Apple TV",
        };
        let version: &str = match &device.os_version {
            Some(v) => v.as_str(),
            None => "tvOS",
        };
        PairedView {
            title: join2("Paired with ", device.name.as_str()),
            details: join2(
                join4(product, " · ", version, " · UDID ").as_str(),
                device.udid.as_str(),
            ),
            hint: PAIRED_HINT,
            status: status_line(&self.status),
            start_over: Button {
                label: "Pair a Different Apple TV",
                sends: Some(Message::StartOver),
            },
            forget: Button { label: "Forget Host Pairing", sends: Some(Message::Forget) },
        }
    }

    /// What the screen shows.
    pub fn view(&self) -> (r: ScreenView)
        ensures
            match (self.paired_device, r) {
                (Some(device), ScreenView::Paired(v)) => self.shows_paired(device, v),
                (None, ScreenView::Pairing(v)) => self.shows(v),
                _ => false,
            },
    {
        match &self.paired_device {
            Some(device) => ScreenView::Paired(self.view_paired(device)),
            None => ScreenView::Pairing(self.view_pairing()),
        }
    }
}

/// A PIN can be handed in only while one is waited for, and no pairing can be begun then.
pub proof fn law_pin_entry_stands_alone(screen: TvOsPairingScreen, v: PairingView)
    requires
        screen.shows(v),
        v.pin_entry is Some,
    ensures
        v.pair is None,
        v.reconnect is None,
{
}

// ---------------------------------------------------------------------------
// The end of a pairing
// ---------------------------------------------------------------------------

/// `after` is `before` once its tunnel told of it. A device without a pairing identity stays as it
/// is.
pub open spec fn told(before: Device, info: TvosDeviceInfo, after: Device) -> bool {
    if before.pairing_identity is Some {
        info_applied(before, info, after)
    } else {
        after == before
    }
}

/// The device once its tunnel told of it: only one with a valid identifier is accepted.
pub fn authenticated(device: Device, info: &TvosDeviceInfo, reconnected: bool) -> (r: Result<
    Device,
    String,
>)
    ensures
        match r {
            Ok(d) => told(device, *info, d) && device_udid(d.udid@),
            Err(m) => (exists|d: Device| #[trigger]
                told(device, *info, d) && !device_udid(d.udid@)) && m@ == if reconnected {
                "Apple TV reconnected but its authenticated UDID was not returned"@
            } else {
                "Apple TV pairing succeeded but its authenticated UDID was not returned"@
            },
        },
{
    let mut d: Device = device;
    d.apply_tvos_info(info);
    if is_valid_device_udid(d.udid.as_str()) {
        Ok(d)
    } else {
        proof {
            assert(told(device, *info, d));
        }
        if reconnected {
            Err("Apple TV reconnected but its authenticated UDID was not returned".to_string())
        } else {
            Err(
                "Apple TV pairing succeeded but its authenticated UDID was not returned".to_string(),
            )
        }
    }
}

/// A device can be reconnected only where a pairing of it is there.
pub fn may_reconnect(has_pairing_source: bool) -> (r: Result<(), String>)
    ensures
        match r {
            Ok(_) => has_pairing_source,
            Err(m) => !has_pairing_source && m@
                == "No saved pairing record exists for this Apple TV. Pair it first."@,
        },
{
    if has_pairing_source {
        Ok(())
    } else {
        Err("No saved pairing record exists for this Apple TV. Pair it first.".to_string())
    }
}

/// While a pairing or a reconnection runs neither can be begun, and while a scan runs none can; a PIN
/// can be handed in exactly when it has six characters, and can always be given up.
pub proof fn law_nothing_is_begun_twice(screen: TvOsPairingScreen, v: PairingView)
    requires
        screen.shows(v),
    ensures
        v.scan.sends is Some <==> !screen.scanning,
        v.scan.sends matches Some(m) ==> m is Scan,
        v.pair matches Some(b) ==> (b.sends is Some <==> !screen.pairing && !screen.reconnecting) && (
        b.sends matches Some(m) ==> m is Pair),
        v.reconnect matches Some(b) ==> (b.sends is Some <==> !screen.pairing
            && !screen.reconnecting) && (b.sends matches Some(m) ==> m is Reconnect),
        v.pin_entry is Some <==> screen.awaiting_pin,
        v.pin_entry matches Some(p) ==> (p.submit.sends is Some <==> screen.pin@.len() == 6) && (
        p.submit.sends matches Some(m) ==> m is SubmitPin) && (p.cancel.sends matches Some(m)
            && m is CancelPin),
        v.status is Some <==> screen.status is Some,
        v.status matches Some(s) ==> (s.color == StatusColor::Red <==> screen.status->0.is_error),
{
}

/// Labels are shown once each, in the order of texts, and every one of them is that of an Apple TV
/// that was found.
pub proof fn law_each_label_is_shown_once(
    list: Seq<Seq<char>>,
    source: Seq<Seq<char>>,
    i: int,
    j: int,
)
    requires
        sorted_set(list, source),
        0 <= i < j < list.len(),
    ensures
        list[i] != list[j],
        text_le(list[i], list[j]),
        source.contains(list[i]),
{
    assert(list.contains(list[i]));
}

/// The view of a paired device names it and gives its identifier, and its buttons forget it and start
/// over.
pub proof fn law_paired_view_tells_the_device(
    screen: TvOsPairingScreen,
    device: Device,
    v: PairedView,
)
    requires
        screen.shows_paired(device, v),
    ensures
        crate::text::has_text(v.title@, device.name@),
        crate::text::has_text(v.details@, device.udid@),
        v.forget.sends == Some(Message::Forget),
        v.start_over.sends == Some(Message::StartOver),
        screen.status matches Some(s) ==> (v.status matches Some(l) && l.content@ == s.content@ && (
        l.color == StatusColor::Red <==> s.is_error)),
        screen.status is None ==> v.status is None,
{
    crate::text::law_joined_text_is_there("Paired with "@, device.name@, seq![]);
    assert(v.title@ =~= "Paired with "@ + device.name@ + seq![]);
    let product = match device.product_type {
        Some(p) => p@,
        None => "Apple TV"@,
    };
    let version = match device.os_version {
        Some(v) => v@,
        None => "tvOS"@,
    };
    let front = product + " · "@ + version + " · UDID "@;
    crate::text::law_joined_text_is_there(front, device.udid@, seq![]);
    assert(v.details@ =~= front + device.udid@ + seq![]);
}

} // verus!
