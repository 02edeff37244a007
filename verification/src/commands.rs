//! What the commands on devices and pairings decide and print.
use crate::dedup::{deduplicate_devices, grouped};
use crate::device::{device_text, new_apple_tv, Device, Endpoint, IpAddress};
use crate::error::PlumeError;
use crate::options::SignerAppReal;
use crate::outside::{debug_quoted, debug_text};
use crate::provision::{device_udid, is_valid_device_udid};
use crate::store::{
    info_name, is_find_result, keys_name, pairings_fit, record_models, record_orders, records_among,
    valid_stem, without_file, Files, PairingRecord, PairingStore, RecordModel,
};
use crate::table::held;
use crate::text::{
    decimal, decimal_text, eq_ignore_case, has_text, join2, join3, join4, opt_text, replace_char,
    same_ignoring_case, texts, trim, trimmed, with_char_replaced,
};
use crate::wireless::{DiscoveredDevice, ServiceKind};
use vstd::prelude::*;

verus! {

// ---------------------------------------------------------------------------
// Choosing a device
// ---------------------------------------------------------------------------

/// All devices, those at the multiplexing daemon first, each once. There must be one.
pub fn listed_devices(usb: Vec<Device>, network: Vec<Device>) -> (r: Result<Vec<Device>, String>)
    ensures
        ({
            let all = grouped(usb@ + network@, (usb@ + network@).len() as int);
            match r {
                Ok(devices) => devices@ == all && all.len() > 0,
                Err(e) => all.len() == 0 && e@
                    == "No devices connected. Connect a device or pair an Apple TV with `plumesign pair connect`."@,
            }
        }),
{
    let ghost first = usb@;
    let mut all: Vec<Device> = usb;
    let mut more: Vec<Device> = network;
    all.append(&mut more);
    proof {
        assert(all@ =~= first + network@);
    }
    let devices: Vec<Device> = deduplicate_devices(all);
    if devices.len() == 0 {
        return Err(
            "No devices connected. Connect a device or pair an Apple TV with `plumesign pair connect`.".to_string(),
        );
    }
    Ok(devices)
}

/// The index of the first device whose identifier is `udid` in any case, at or after `from`, or the
/// number of devices.
pub open spec fn udid_index(devices: Seq<Device>, udid: Seq<char>, from: int) -> int
    decreases devices.len() - from,
{
    if from >= devices.len() || same_ignoring_case(devices[from].udid@, udid) {
        from
    } else {
        udid_index(devices, udid, from + 1)
    }
}

/// The device with an identifier: the one in the list, else the one that the multiplexing daemon
/// knows.
pub fn select_device(devices: &Vec<Device>, udid: &str, known: Option<Device>) -> (r: Result<
    Device,
    String,
>)
    ensures
        ({
            let i = udid_index(devices@, udid@, 0);
            match r {
                Ok(d) => if i < devices@.len() {
                    d == devices@[i]
                } else {
                    known == Some(d)
                },
                Err(e) => i >= devices@.len() && known is None && e@
                    == "No connected device has UDID "@ + udid@,
            }
        }),
{
    let n: usize = devices.len();
    let mut i: usize = 0;
    while i < n
        invariant
            i <= n == devices@.len(),
            udid_index(devices@, udid@, 0) == udid_index(devices@, udid@, i as int),
        decreases n - i,
    {
        if eq_ignore_case(devices[i].udid.as_str(), udid) {
            return Ok(devices[i].clone());
        }
        i += 1;
    }
    match known {
        Some(d) => Ok(d),
        None => Err(join2("No connected device has UDID ", udid)),
    }
}

/// The apps to choose from, one line each. There must be one.
pub open spec fn app_line(app: SignerAppReal) -> Seq<char> {
    app.app.text() + " ("@ + (match app.bundle_id {
        Some(id) => id@,
        None => "unknown bundle"@,
    }) + ")"@
}

/// The lines of the apps to choose from.
pub fn app_lines(apps: &Vec<SignerAppReal>) -> (r: Result<Vec<String>, String>)
    ensures
        match r {
            Ok(lines) => apps@.len() > 0 && texts(lines@) == apps@.map_values(
                |a: SignerAppReal| app_line(a),
            ),
            Err(e) => apps@.len() == 0 && e@ == "No supported installed apps found"@,
        },
{
    let n: usize = apps.len();
    if n == 0 {
        return Err("No supported installed apps found".to_string());
    }
    let mut lines: Vec<String> = Vec::new();
    let mut i: usize = 0;
    while i < n
        invariant
            i <= n == apps@.len(),
            lines@.len() == i,
            forall|j: int| 0 <= j < i ==> (#[trigger] lines@[j])@ == app_line(apps@[j]),
        decreases n - i,
    {
        let id: &str = match &apps[i].bundle_id {
            Some(id) => id.as_str(),
            None => "unknown bundle",
        };
        lines.push(join4(apps[i].app.to_text(), " (", id, ")"));
        i += 1;
    }
    proof {
        assert(texts(lines@) =~= apps@.map_values(|a: SignerAppReal| app_line(a)));
    }
    Ok(lines)
}

/// The bundle identifier of the app that was chosen.
pub fn chosen_app(apps: &Vec<SignerAppReal>, selection: usize) -> (r: Result<String, String>)
    requires
        selection < apps@.len(),
    ensures
        match r {
            Ok(id) => opt_text(apps@[selection as int].bundle_id) == Some(id@),
            Err(e) => apps@[selection as int].bundle_id is None && e@
                == "Selected app has no bundle identifier"@,
        },
{
    match &apps[selection].bundle_id {
        Some(id) => Ok(id.clone()),
        None => Err("Selected app has no bundle identifier".to_string()),
    }
}

// ---------------------------------------------------------------------------
// Pairing an Apple TV
// ---------------------------------------------------------------------------

/// What a scan prints.
pub open spec fn scan_text(devices: Seq<Device>) -> Seq<Seq<char>> {
    if devices.len() == 0 {
        seq!["No Apple TVs found."@]
    } else {
        devices.map_values(|d: Device| device_text(d))
    }
}

/// What a scan prints.
pub fn scan_lines(devices: &Vec<Device>) -> (r: Vec<String>)
    ensures
        texts(r@) == scan_text(devices@),
{
    let n: usize = devices.len();
    let mut lines: Vec<String> = Vec::new();
    if n == 0 {
        lines.push("No Apple TVs found.".to_string());
        proof {
            assert(texts(lines@) =~= scan_text(devices@));
        }
        return lines;
    }
    let mut i: usize = 0;
    while i < n
        invariant
            i <= n == devices@.len(),
            lines@.len() == i,
            forall|j: int| 0 <= j < i ==> (#[trigger] lines@[j])@ == device_text(devices@[j]),
        decreases n - i,
    {
        lines.push(devices[i].to_text());
        i += 1;
    }
    proof {
        assert(texts(lines@) =~= scan_text(devices@));
    }
    lines
}

/// What is printed of a device that was asked for again.
pub open spec fn reconnect_line(d: Device) -> Seq<char> {
    if device_udid(d.udid@) {
        "Reconnected "@ + device_text(d)
    } else {
        d.name@ + " is paired but its authenticated UDID is unavailable"@
    }
}

/// What is printed of the devices that were asked for again.
pub open spec fn reconnect_text(devices: Seq<Device>) -> Seq<Seq<char>> {
    if devices.len() == 0 {
        seq!["No Apple TVs found."@]
    } else {
        devices.map_values(|d: Device| reconnect_line(d))
    }
}

/// What is printed of the devices that were asked for again.
pub fn reconnect_lines(devices: &Vec<Device>) -> (r: Vec<String>)
    ensures
        texts(r@) == reconnect_text(devices@),
{
    let n: usize = devices.len();
    let mut lines: Vec<String> = Vec::new();
    let mut i: usize = 0;
    while i < n
        invariant
            i <= n == devices@.len(),
            lines@.len() == i,
            forall|j: int| 0 <= j < i ==> (#[trigger] lines@[j])@ == reconnect_line(devices@[j]),
        decreases n - i,
    {
        let line: String = if is_valid_device_udid(devices[i].udid.as_str()) {
            join2("Reconnected ", devices[i].to_text().as_str())
        } else {
            join2(
                devices[i].name.as_str(),
                " is paired but its authenticated UDID is unavailable",
            )
        };
        lines.push(line);
        i += 1;
    }
    if n == 0 {
        lines.push("No Apple TVs found.".to_string());
    }
    proof {
        assert(texts(lines@) =~= reconnect_text(devices@));
    }
    lines
}

/// The device whose pairing is to be forgotten. Its identity is the one that was given, else the
/// name with hyphens; its name is the one that was given, else the identity with spaces.
pub fn forget_target(name: Option<String>, identity: Option<String>, cache_dir: String) -> (r: Result<
    Device,
    String,
>)
    ensures
        match r {
            Ok(d) => {
                let id = match (identity, name) {
                    (Some(id), _) => id@,
                    (None, Some(n)) => with_char_replaced(n@, ' ', '-'),
                    (None, None) => seq![],
                };
                &&& identity is Some || name is Some
                &&& d.pairing_identity matches Some(i) && i@ == id
                &&& d.name@ == match name {
                    Some(n) => n@,
                    None => with_char_replaced(id, '-', ' '),
                }
                &&& new_apple_tv(d, d.name, d.pairing_identity->0, None, None, cache_dir)
            },
            Err(e) => identity is None && name is None && e@ == "--name or --identity is required"@,
        },
{
    let id: String = match (identity, &name) {
        (Some(id), _) => id,
        (None, Some(n)) => replace_char(n.as_str(), ' ', '-'),
        (None, None) => {
            return Err("--name or --identity is required".to_string());
        },
    };
    let shown: String = match name {
        Some(n) => n,
        None => replace_char(id.as_str(), '-', ' '),
    };
    Ok(Device::new_tvos(shown, id, IpAddress::v4("0.0.0.0"), None, None, cache_dir))
}

/// The Apple TV at an address. It is called by the name that was given.
pub fn addressed_target(name: Option<String>, ip: IpAddress, port: Option<u16>, cache_dir: String) -> (r:
    Result<Device, String>)
    ensures
        match r {
            Ok(d) => {
                &&& port is Some
                &&& d.name@ == match name {
                    Some(n) => n@,
                    None => "Apple TV"@,
                }
                &&& d.pairing_identity matches Some(i) && i@ == with_char_replaced(d.name@, ' ', '-')
                &&& new_apple_tv(
                    d,
                    d.name,
                    d.pairing_identity->0,
                    Some(Endpoint { ip, port: port->0 }),
                    None,
                    cache_dir,
                )
            },
            Err(e) => port is None && e@ == "--port is required with --ip"@,
        },
{
    let name: String = match name {
        Some(n) => n,
        None => "Apple TV".to_string(),
    };
    let port: u16 = match port {
        Some(port) => port,
        None => {
            return Err("--port is required with --ip".to_string());
        },
    };
    let identity: String = replace_char(name.as_str(), ' ', '-');
    Ok(Device::new_tvos(name, identity, ip, Some(port), None, cache_dir))
}

/// The index of the first device called `name` in any case, at or after `from`, or the number of
/// devices.
pub open spec fn name_index(devices: Seq<Device>, name: Seq<char>, from: int) -> int
    decreases devices.len() - from,
{
    if from >= devices.len() || same_ignoring_case(devices[from].name@, name) {
        from
    } else {
        name_index(devices, name, from + 1)
    }
}

/// Which of the devices is to be paired: the one with the name that was given. Without a name it is
/// to be asked for, which `None` stands for.
pub fn named_target(devices: &Vec<Device>, name: Option<&str>) -> (r: Result<Option<usize>, String>)
    ensures
        match r {
            Ok(Some(i)) => name matches Some(n) && i == name_index(devices@, n@, 0) && i
                < devices@.len(),
            Ok(None) => name is None && devices@.len() > 0,
            Err(e) => if devices@.len() == 0 {
                e@ == "No Apple TVs found on the network"@
            } else {
                name matches Some(n) && name_index(devices@, n@, 0) >= devices@.len() && e@
                    == "Apple TV "@ + debug_quoted(n@) + " was not found"@
            },
        },
{
    let n: usize = devices.len();
    if n == 0 {
        return Err("No Apple TVs found on the network".to_string());
    }
    match name {
        None => Ok(None),
        Some(wanted) => {
            let mut i: usize = 0;
            while i < n
                invariant
                    i <= n == devices@.len(),
                    name == Some(wanted),
                    name_index(devices@, wanted@, 0) == name_index(devices@, wanted@, i as int),
                decreases n - i,
            {
                if eq_ignore_case(devices[i].name.as_str(), wanted) {
                    return Ok(Some(i));
                }
                i += 1;
            }
            Err(join3("Apple TV ", debug_text(wanted).as_str(), " was not found"))
        },
    }
}

/// What is printed of an Apple TV that was paired.
pub open spec fn paired_text(d: Device) -> Seq<char> {
    "Paired "@ + d.name@ + " ("@ + (match d.product_type {
        Some(t) => t@,
        None => "Apple TV"@,
    }) + (", "@ + (match d.os_version {
        Some(v) => v@,
        None => "tvOS"@,
    }) + ", UDID "@ + d.udid@) + ")"@
}

/// What is printed of an Apple TV that was paired. It must have told its identifier.
pub fn paired_line(device: &Device) -> (r: Result<String, String>)
    ensures
        match r {
            Ok(line) => device_udid(device.udid@) && line@ == paired_text(*device),
            Err(e) => !device_udid(device.udid@) && e@
                == "Pairing succeeded but the authenticated Apple TV UDID was not returned"@,
        },
{
    if !is_valid_device_udid(device.udid.as_str()) {
        return Err(
            "Pairing succeeded but the authenticated Apple TV UDID was not returned".to_string(),
        );
    }
    let product: &str = match &device.product_type {
        Some(t) => t.as_str(),
        None => "Apple TV",
    };
    let version: &str = match &device.os_version {
        Some(v) => v.as_str(),
        None => "tvOS",
    };
    let head: String = join4("Paired ", device.name.as_str(), " (", product);
    let tail: String = join4(", ", version, ", UDID ", device.udid.as_str());
    Ok(join3(head.as_str(), tail.as_str(), ")"))
}

// ---------------------------------------------------------------------------
// Wireless pairing
// ---------------------------------------------------------------------------

/// Why a command ends.
#[derive(Debug)]
pub enum CommandError {
    Library(PlumeError),
    Message(String),
}

/// Where to pair: both the address and the port are needed.
pub fn pairing_target(ip: Option<IpAddress>, port: Option<u16>) -> (r: Result<Endpoint, String>)
    ensures
        match r {
            Ok(e) => ip == Some(e.ip) && port == Some(e.port),
            Err(e) => (ip is None || port is None) && e@
                == "--ip and --port are required to pair; run `plumesign pair discover` to find them"@,
        },
{
    match (ip, port) {
        (Some(ip), Some(port)) => Ok(Endpoint { ip, port }),
        _ => Err(
            "--ip and --port are required to pair; run `plumesign pair discover` to find them".to_string(),
        ),
    }
}

/// A device that was found, with its address as a text: alone and with the port.
#[derive(Debug)]
pub struct ShownDevice {
    pub device: DiscoveredDevice,
    pub ip: String,
    pub address: String,
}

/// What is printed of a device that was found, where `known` is its pairing.
pub open spec fn discovered_line(
    shown: ShownDevice,
    known: Option<PairingRecord>,
    program: Seq<char>,
) -> Seq<char> {
    let d = shown.device;
    let listed = "["@ + d.kind.text() + "] "@ + d.shown_name() + (" ("@ + shown.address@ + ")"@);
    match (known, d.kind) {
        (Some(record), _) => listed + " paired as "@ + record.udid@,
        (None, ServiceKind::ManualPairing) => listed + (" run: "@ + program + " pair --ip "@
            + shown.ip@) + " --port "@ + decimal(d.port as nat),
        (None, ServiceKind::RemotePairing) => listed + " paired with another host"@,
    }
}

/// `known` is the pairing of a device that was found. A device without an identifier and a tag has
/// none.
pub open spec fn known_pairing(
    dir: Seq<char>,
    files: Seq<(Seq<char>, Seq<u8>)>,
    d: DiscoveredDevice,
    known: Option<PairingRecord>,
) -> bool {
    match (d.identifier, d.auth_tag) {
        (Some(identifier), Some(tag)) => is_find_result(dir, files, identifier@, tag@, known),
        _ => known is None,
    }
}

/// The pairing of a device is looked up: it advertises an identifier with a tag.
pub open spec fn is_looked_up(d: DiscoveredDevice) -> bool {
    d.identifier is Some && d.auth_tag is Some
}

/// What is printed of a device that was found, where `known` is its pairing.
pub fn describe_discovered(shown: &ShownDevice, known: Option<&PairingRecord>, program: &str) -> (r:
    String)
    ensures
        r@ == discovered_line(
            *shown,
            match known {
                Some(k) => Some(*k),
                None => None,
            },
            program@,
        ),
{
    let listed: String = shown.device.to_text(shown.address.as_str());
    match (known, shown.device.kind) {
        (Some(record), _) => join3(listed.as_str(), " paired as ", record.udid.as_str()),
        (None, ServiceKind::ManualPairing) => {
            let command: String = join4(" run: ", program, " pair --ip ", shown.ip.as_str());
            let port: String = decimal_text(shown.device.port as u64);
            join4(listed.as_str(), command.as_str(), " --port ", port.as_str())
        },
        (None, ServiceKind::RemotePairing) => join2(listed.as_str(), " paired with another host"),
    }
}

/// The line is the one of a device that was found.
pub open spec fn line_of(
    dir: Seq<char>,
    files: Seq<(Seq<char>, Seq<u8>)>,
    shown: ShownDevice,
    program: Seq<char>,
    line: Seq<char>,
) -> bool {
    exists|known: Option<PairingRecord>| #[trigger]
        known_pairing(dir, files, shown.device, known) && line == discovered_line(
            shown,
            known,
            program,
        )
}

impl PairingStore {
    /// What is printed of the devices that were found, one line each.
    pub fn discover_lines(&self, devices: &Vec<ShownDevice>, files: &Files, program: &str) -> (r: Vec<
        String,
    >)
        requires
            (exists|i: int| 0 <= i < devices@.len() && is_looked_up((#[trigger] devices@[i]).device))
                ==> pairings_fit(files@, true),
        ensures
            r@.len() == devices@.len(),
            forall|i: int|
                0 <= i < r@.len() ==> line_of(
                    self.dir@,
                    files@,
                    devices@[i],
                    program@,
                    (#[trigger] r@[i])@,
                ),
    {
        let n: usize = devices.len();
        let mut lines: Vec<String> = Vec::new();
        let mut i: usize = 0;
        while i < n
            invariant
                i <= n == devices@.len(),
                (exists|j: int|
                    0 <= j < devices@.len() && is_looked_up((#[trigger] devices@[j]).device))
                    ==> pairings_fit(files@, true),
                lines@.len() == i,
                forall|j: int|
                    0 <= j < i ==> line_of(
                        self.dir@,
                        files@,
                        devices@[j],
                        program@,
                        (#[trigger] lines@[j])@,
                    ),
            decreases n - i,
        {
            proof {
                assert(is_looked_up(devices@[i as int].device) ==> pairings_fit(files@, true));
            }
            let known: Option<PairingRecord> = match (
                &devices[i].device.identifier,
                &devices[i].device.auth_tag,
            ) {
                (Some(identifier), Some(tag)) => self.find(
                    identifier.as_str(),
                    tag.as_str(),
                    files,
                ),
                _ => None,
            };
            let line: String = describe_discovered(&devices[i], known.as_ref(), program);
            proof {
                assert(known_pairing(self.dir@, files@, devices@[i as int].device, known));
                assert(line_of(self.dir@, files@, devices@[i as int], program@, line@));
            }
            lines.push(line);
            i += 1;
        }
        lines
    }

    /// What is printed of the stored pairings, one line each in the order of the list.
    pub fn list_lines(&self, files: &Files) -> (r: Vec<String>)
        requires
            pairings_fit(files@, false),
        ensures
            exists|records: Seq<RecordModel>|
                {
                    &&& #[trigger] records.to_multiset() == records_among(
                        self.dir@,
                        files@,
                        files@.len() as int,
                    ).to_multiset()
                    &&& crate::sort::in_order(record_orders(records))
                    &&& texts(r@) == records.map_values(|m: RecordModel| record_line(m))
                },
    {
        let records: Vec<PairingRecord> = self.list(files);
        let n: usize = records.len();
        let mut lines: Vec<String> = Vec::new();
        let mut i: usize = 0;
        while i < n
            invariant
                i <= n == records@.len(),
                lines@.len() == i,
                forall|j: int|
                    0 <= j < i ==> (#[trigger] lines@[j])@ == record_line(records@[j]@),
            decreases n - i,
        {
            lines.push(records[i].to_text());
            i += 1;
        }
        proof {
            let models = record_models(records@);
            assert(texts(lines@) =~= models.map_values(|m: RecordModel| record_line(m)));
            assert(models.to_multiset() == records_among(
                self.dir@,
                files@,
                files@.len() as int,
            ).to_multiset());
        }
        lines
    }

    /// What is printed of the pairing whose tag a device advertises.
    pub fn find_line(&self, identifier: &str, auth_tag: &str, files: &Files) -> (r: Result<
        String,
        String,
    >)
        requires
            pairings_fit(files@, true),
        ensures
            match r {
                Ok(line) => exists|record: PairingRecord|
                    {
                        &&& #[trigger] is_find_result(
                            self.dir@,
                            files@,
                            identifier@,
                            auth_tag@,
                            Some(record),
                        )
                        &&& line@ == record_line(record@)
                    },
                Err(e) => is_find_result(self.dir@, files@, identifier@, auth_tag@, None) && e@
                    == "No stored pairing matches identifier "@ + identifier@,
            },
    {
        match self.find(identifier, auth_tag, files) {
            Some(record) => {
                let line: String = record.to_text();
                proof {
                    assert(is_find_result(
                        self.dir@,
                        files@,
                        identifier@,
                        auth_tag@,
                        Some(record),
                    ));
                }
                Ok(line)
            },
            None => Err(join2("No stored pairing matches identifier ", identifier)),
        }
    }

    /// Forgets a pairing, which must be there.
    pub fn forget(&self, udid: &str, files: &mut Files) -> (r: Result<(), CommandError>)
        ensures
            match r {
                Err(CommandError::Library(e)) => {
                    &&& !valid_stem(udid@)
                    &&& e matches PlumeError::PairingInvalidUdid(u) && u@ == udid@
                    &&& final(files)@ == old(files)@
                },
                Err(CommandError::Message(m)) => {
                    &&& valid_stem(udid@)
                    &&& held(old(files)@, keys_name(udid@)) is None
                    &&& m@ == "No stored pairing for "@ + udid@
                },
                Ok(()) => valid_stem(udid@) && held(old(files)@, keys_name(udid@)) is Some,
            },
            valid_stem(udid@) ==> final(files)@ == without_file(
                without_file(old(files)@, keys_name(udid@)),
                info_name(udid@),
            ),
    {
        match self.remove(udid, files) {
            Err(e) => Err(CommandError::Library(e)),
            Ok(true) => Ok(()),
            Ok(false) => Err(CommandError::Message(join2("No stored pairing for ", udid))),
        }
    }
}

/// A record in a list.
pub open spec fn record_line(m: RecordModel) -> Seq<char> {
    m.name + " ("@ + m.model + ") ["@ + (m.udid + "]"@)
}

/// How this program was called: its first argument where that says something.
pub fn invocation(first: Option<String>) -> (r: String)
    ensures
        r@ == match first {
            Some(arg) => if arg@.len() > 0 {
                arg@
            } else {
                "plumesign"@
            },
            None => "plumesign"@,
        },
{
    match first {
        Some(arg) => if crate::device::is_blank(arg.as_str()) {
            "plumesign".to_string()
        } else {
            arg
        },
        None => "plumesign".to_string(),
    }
}

/// The PIN that was typed: the line without the white space around it. A line that could not be read
/// is empty.
pub fn typed_pin(line: Option<&str>) -> (r: String)
    ensures
        r@ == match line {
            Some(line) => trimmed(line@),
            None => seq![],
        },
{
    match line {
        Some(line) => trim(line),
        None => {
            let none: String = String::new();
            proof {
                assert(none@ =~= seq![]);
            }
            none
        },
    }
}

/// What is printed of a pairing holds its name, its model and its identifier.
pub proof fn law_record_line_tells_all(m: RecordModel)
    ensures
        has_text(record_line(m), m.name),
        has_text(record_line(m), m.model),
        has_text(record_line(m), m.udid),
{
    let line = record_line(m);
    crate::text::law_joined_text_is_there(
        seq![],
        m.name,
        " ("@ + m.model + ") ["@ + (m.udid + "]"@),
    );
    assert(line =~= m.name + (" ("@ + m.model + ") ["@ + (m.udid + "]"@)));
    crate::text::law_joined_text_is_there(
        m.name + " ("@,
        m.model,
        ") ["@ + (m.udid + "]"@),
    );
    assert(line =~= m.name + " ("@ + m.model + (") ["@ + (m.udid + "]"@)));
    crate::text::law_joined_text_is_there(m.name + " ("@ + m.model + ") ["@, m.udid, "]"@);
    assert(line =~= m.name + " ("@ + m.model + ") ["@ + m.udid + "]"@);
}

/// What is printed of a paired device holds its name and its identifier.
pub proof fn law_paired_text_tells_the_device(d: Device)
    ensures
        has_text(paired_text(d), d.name@),
        has_text(paired_text(d), d.udid@),
{
    let kind = match d.product_type {
        Some(t) => t@,
        None => "Apple TV"@,
    };
    let version = match d.os_version {
        Some(v) => v@,
        None => "tvOS"@,
    };
    let line = paired_text(d);
    let tail = " ("@ + kind + (", "@ + version + ", UDID "@ + d.udid@) + ")"@;
    crate::text::law_joined_text_is_there("Paired "@, d.name@, tail);
    assert(line =~= "Paired "@ + d.name@ + tail);
    let head = "Paired "@ + d.name@ + " ("@ + kind + ", "@ + version + ", UDID "@;
    crate::text::law_joined_text_is_there(head, d.udid@, ")"@);
    assert(line =~= head + d.udid@ + ")"@);
}

/// A device is found by its identifier in any case of letters, the first of several, and only where it
/// is there; the same holds of its name.
pub proof fn law_devices_are_found(devices: Seq<Device>, text: Seq<char>, from: int)
    requires
        0 <= from <= devices.len(),
    ensures
        from <= udid_index(devices, text, from) <= devices.len(),
        udid_index(devices, text, from) < devices.len() ==> same_ignoring_case(
            devices[udid_index(devices, text, from)].udid@,
            text,
        ),
        forall|i: int|
            from <= i < udid_index(devices, text, from) ==> !same_ignoring_case(
                (#[trigger] devices[i]).udid@,
                text,
            ),
        from <= name_index(devices, text, from) <= devices.len(),
        name_index(devices, text, from) < devices.len() ==> same_ignoring_case(
            devices[name_index(devices, text, from)].name@,
            text,
        ),
        forall|i: int|
            from <= i < name_index(devices, text, from) ==> !same_ignoring_case(
                (#[trigger] devices[i]).name@,
                text,
            ),
    decreases devices.len() - from,
{
    if from < devices.len() {
        law_devices_are_found(devices, text, from + 1);
    }
}

/// A device that is known is printed with its identifier; one that can be paired with the address and
/// the port to pair it at.
pub proof fn law_discovered_line_tells_what_to_do(
    shown: ShownDevice,
    known: Option<PairingRecord>,
    program: Seq<char>,
)
    ensures
        known matches Some(record) ==> has_text(discovered_line(shown, known, program), record.udid@),
        known is None && shown.device.kind == ServiceKind::ManualPairing ==> has_text(
            discovered_line(shown, known, program),
            shown.ip@,
        ) && has_text(discovered_line(shown, known, program), decimal(shown.device.port as nat)),
{
    let d = shown.device;
    let listed = "["@ + d.kind.text() + "] "@ + d.shown_name() + (" ("@ + shown.address@ + ")"@);
    let line = discovered_line(shown, known, program);
    if let Some(record) = known {
        crate::text::law_joined_text_is_there(listed + " paired as "@, record.udid@, seq![]);
    } else if d.kind == ServiceKind::ManualPairing {
        let head = listed + " run: "@ + program + " pair --ip "@;
        let port = decimal(d.port as nat);
        crate::text::law_joined_text_is_there(head, shown.ip@, " --port "@ + port);
        assert(line =~= head + shown.ip@ + (" --port "@ + port));
        crate::text::law_joined_text_is_there(
            listed + (" run: "@ + program + " pair --ip "@ + shown.ip@) + " --port "@,
            port,
            seq![],
        );
    }
}

/// What is told of a scan has one line for each device that was found, which names it; the same holds
/// of reconnecting.
pub proof fn law_each_device_has_its_line(devices: Seq<Device>, i: int)
    requires
        0 <= i < devices.len(),
    ensures
        scan_text(devices).len() == devices.len(),
        reconnect_text(devices).len() == devices.len(),
        crate::text::has_text(scan_text(devices)[i], devices[i].name@),
        crate::text::has_text(reconnect_text(devices)[i], devices[i].name@),
        !device_udid(devices[i].udid@) ==> crate::text::has_text(
            reconnect_text(devices)[i],
            "UDID is unavailable"@,
        ),
        device_udid(devices[i].udid@) ==> crate::text::has_text(
            reconnect_text(devices)[i],
            "Reconnected"@,
        ),
{
    let d = devices[i];
    crate::device::law_shown_device_is_named(d);
    let text = device_text(d);
    let n = choose|n: int| crate::text::occurs_at(text, d.name@, n);
    reveal_strlit("Reconnected ");
    reveal_strlit("Reconnected");
    reveal_strlit("UDID is unavailable");
    reveal_strlit(" is paired but its authenticated UDID is unavailable");
    let told = "Reconnected "@ + text;
    assert(told.subrange(12 + n, 12 + n + d.name@.len()) =~= text.subrange(n, n + d.name@.len()));
    assert(crate::text::occurs_at(told, d.name@, 12 + n));
    assert(told.subrange(0, 11) =~= "Reconnected"@);
    assert(crate::text::occurs_at(told, "Reconnected"@, 0));
    let end = " is paired but its authenticated UDID is unavailable"@;
    let other = d.name@ + end;
    assert(other.subrange(0, d.name@.len() as int) =~= d.name@);
    assert(crate::text::occurs_at(other, d.name@, 0));
    let at = other.len() - 19;
    assert(end.len() == 52);
    assert(other.subrange(at, other.len() as int) =~= "UDID is unavailable"@);
    assert(crate::text::occurs_at(other, "UDID is unavailable"@, at));
}

/// The line of an app names the app and its bundle.
pub proof fn law_app_line_names_the_app(app: SignerAppReal)
    ensures
        crate::text::has_text(app_line(app), app.app.text()),
        app.bundle_id matches Some(id) ==> crate::text::has_text(app_line(app), id@),
{
    let id = match app.bundle_id {
        Some(id) => id@,
        None => "unknown bundle"@,
    };
    crate::text::law_joined_text_is_there(seq![], app.app.text(), " ("@ + id + ")"@);
    assert(app_line(app) =~= seq![] + app.app.text() + (" ("@ + id + ")"@));
    crate::text::law_joined_text_is_there(app.app.text() + " ("@, id, ")"@);
}

} // verus!
