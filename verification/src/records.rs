//! Pairing records of the system and how they are taken over.
use crate::device::{either, is_blank, Device};
use crate::error::PlumeError;
use crate::outside::{
    dictionary_plist, dns_uuid, ed25519_public_key, is_pairing_record, plist_as_xml,
    read_dictionary, read_pairing_record, uuid_for_host, write_xml_plist,
};
use crate::pairing_view::{sorted_set, sorted_texts};
use crate::paths::{join_path, path_join};
use crate::plist_dates::{dates_are_fit, dates_fit};
use crate::plist_model::group_plist_models;
use crate::plist_value::{
    data_entry, flat, key_index, printable, text_entry, writable, PlistDictionary, PlistModel,
    PlistValue,
};
use crate::text::{
    ascii_lowercase, ascii_uppercase, is_prefix, lower, opt_text, same_text, starts_with, texts,
    trim, trimmed, upper,
};
use vstd::prelude::*;

verus! {

broadcast use group_plist_models;

/// The keys of a pairing.
#[derive(Debug)]
pub struct PairingKeys {
    pub public_key: Vec<u8>,
    pub private_key: Vec<u8>,
    pub identifier: String,
    pub alt_irk: Option<Vec<u8>>,
}

/// The content of optional bytes.
pub open spec fn opt_data(o: Option<Vec<u8>>) -> Option<Seq<u8>> {
    match o {
        Some(v) => Some(v@),
        None => None,
    }
}

impl PairingKeys {
    pub open spec fn irk(self) -> Option<Seq<u8>> {
        opt_data(self.alt_irk)
    }

    /// The same keys but for the resolving key.
    pub open spec fn same_but_irk(self, other: PairingKeys) -> bool {
        self.public_key@ == other.public_key@ && self.private_key@ == other.private_key@
            && self.identifier@ == other.identifier@
    }

    fn with_irk(&self, irk: Option<Vec<u8>>) -> (r: PairingKeys)
        ensures
            r.same_but_irk(*self),
            r.alt_irk == irk,
    {
        let public_key: Vec<u8> = self.public_key.clone();
        let private_key: Vec<u8> = self.private_key.clone();
        proof {
            assert(public_key@ =~= self.public_key@);
            assert(private_key@ =~= self.private_key@);
        }
        PairingKeys { public_key, private_key, identifier: self.identifier.clone(), alt_irk: irk }
    }
}

// ---------------------------------------------------------------------------
// The identity of this machine
// ---------------------------------------------------------------------------

/// The name of this machine: that of the environment, where it is not blank, else the trimmed
/// answer of a command, where that is not empty.
pub open spec fn host_name(env: Option<Seq<char>>, command: Option<Seq<char>>) -> Option<Seq<char>> {
    match env {
        Some(name) if trimmed(name).len() > 0 => Some(name),
        _ => match command {
            Some(answer) if trimmed(answer).len() > 0 => Some(trimmed(answer)),
            _ => None,
        },
    }
}

/// The name of this machine, from the environment and from the answer of a command.
pub fn local_remote_pairing_hostname(env: Option<String>, command: Option<String>) -> (r: Option<
    String,
>)
    ensures
        opt_text(r) == host_name(opt_text(env), opt_text(command)),
{
    if let Some(name) = env {
        if !is_blank(trim(name.as_str()).as_str()) {
            return Some(name);
        }
    }
    if let Some(answer) = command {
        let name: String = trim(answer.as_str());
        if !is_blank(name.as_str()) {
            return Some(name);
        }
    }
    None
}

/// The identifier of this machine, made from its name.
pub fn local_remote_pairing_identifier(hostname: Option<&str>) -> (r: Option<String>)
    ensures
        opt_text(r) == match hostname {
            Some(name) => Some(upper(dns_uuid(name@))),
            None => None,
        },
{
    match hostname {
        Some(name) => Some(ascii_uppercase(uuid_for_host(name).as_str())),
        None => None,
    }
}

// ---------------------------------------------------------------------------
// Records of the system
// ---------------------------------------------------------------------------

/// The bytes under the first of two keys that has some.
pub open spec fn first_data(
    d: Seq<(Seq<char>, PlistModel)>,
    a: Seq<char>,
    b: Seq<char>,
) -> Option<Seq<u8>> {
    either(data_entry(d, a), data_entry(d, b))
}

fn data_field(d: &PlistDictionary, key: &str) -> (r: Option<Vec<u8>>)
    ensures
        opt_data(r) == data_entry(d@, key@),
{
    match d.get(key) {
        Some(v) => match v.as_data() {
            Some(data) => {
                let copy: Vec<u8> = data.clone();
                proof {
                    assert(copy@ =~= data@);
                }
                Some(copy)
            },
            None => None,
        },
        None => None,
    }
}

fn first_field(d: &PlistDictionary, a: &str, b: &str) -> (r: Option<Vec<u8>>)
    ensures
        opt_data(r) == first_data(d@, a@, b@),
{
    match data_field(d, a) {
        Some(v) => Some(v),
        None => data_field(d, b),
    }
}

fn text_field(d: &PlistDictionary, key: &str) -> (r: Option<String>)
    ensures
        opt_text(r) == text_entry(d@, key@),
{
    match d.get(key) {
        Some(v) => match v.as_text() {
            Some(s) => Some(s.clone()),
            None => None,
        },
        None => None,
    }
}

/// A record of the system in the form in which records are kept.
pub ghost enum Normalized {
    Record(Seq<(Seq<char>, PlistModel)>),
    Refused(Seq<char>),
}

/// The resolving key of a record of the system.
pub open spec fn record_irk(source: Seq<(Seq<char>, PlistModel)>) -> Option<Seq<u8>> {
    either(first_data(source, "alt_irk"@, "irk"@), data_entry(source, "host_alt_irk"@))
}

/// A record of the system in the form in which records are kept. Where it names no host, it is
/// taken to be this machine's.
pub open spec fn normalized(
    source: Seq<(Seq<char>, PlistModel)>,
    local_identifier: Option<Seq<char>>,
) -> Normalized {
    let public_key = first_data(source, "public_key"@, "publicKey"@);
    let private_key = first_data(source, "private_key"@, "privateKey"@);
    let identifier = either(
        either(text_entry(source, "identifier"@), text_entry(source, "host_identifier"@)),
        local_identifier,
    );
    if !(public_key matches Some(k) && k.len() == 32) {
        Normalized::Refused("External pairing record has no valid public key"@)
    } else if !(private_key matches Some(k) && k.len() == 32) {
        Normalized::Refused("External pairing record has no valid private key"@)
    } else if identifier is None {
        Normalized::Refused("External pairing record has no host identifier"@)
    } else {
        let base = seq![
            ("public_key"@, PlistModel::Data(public_key->0)),
            ("private_key"@, PlistModel::Data(private_key->0)),
            ("identifier"@, PlistModel::Text(identifier->0)),
        ];
        match record_irk(source) {
            Some(irk) if irk.len() == 16 => Normalized::Record(
                base.push(("alt_irk"@, PlistModel::Data(irk))),
            ),
            _ => Normalized::Record(base),
        }
    }
}

/// A record in the form in which records are kept holds no dates.
proof fn lemma_normalized_is_writable(
    source: Seq<(Seq<char>, PlistModel)>,
    local_identifier: Option<Seq<char>>,
)
    ensures
        normalized(source, local_identifier) matches Normalized::Record(d) ==> writable(
            PlistModel::Dict(d),
        ),
{
    if let Normalized::Record(d) = normalized(source, local_identifier) {
        let model = PlistModel::Dict(d);
        assert(model->Dict_0 == d);
        assert forall|i: int| 0 <= i < d.len() implies writable((#[trigger] d[i]).1) by {}
        assert(forall|i: int|
            0 <= i < model->Dict_0.len() ==> writable((#[trigger] model->Dict_0[i]).1));
        assert(writable(model));
    }
}

/// The form in which a record of the system is kept.
pub fn normalize_record(source: &PlistDictionary, local_identifier: Option<String>) -> (r: Result<
    PlistDictionary,
    PlumeError,
>)
    ensures
        match r {
            Ok(d) => normalized(source@, opt_text(local_identifier)) == Normalized::Record(d@),
            Err(PlumeError::Other(m)) => normalized(source@, opt_text(local_identifier))
                == Normalized::Refused(m@),
            Err(_) => false,
        },
{
    let public_key: Vec<u8> = match first_field(source, "public_key", "publicKey") {
        Some(k) if k.len() == 32 => k,
        _ => {
            return Err(
                PlumeError::Other("External pairing record has no valid public key".to_string()),
            );
        },
    };
    let private_key: Vec<u8> = match first_field(source, "private_key", "privateKey") {
        Some(k) if k.len() == 32 => k,
        _ => {
            return Err(
                PlumeError::Other("External pairing record has no valid private key".to_string()),
            );
        },
    };
    let named: Option<String> = match text_field(source, "identifier") {
        Some(s) => Some(s),
        None => match text_field(source, "host_identifier") {
            Some(s) => Some(s),
            None => local_identifier,
        },
    };
    let identifier: String = match named {
        Some(s) => s,
        None => {
            return Err(
                PlumeError::Other("External pairing record has no host identifier".to_string()),
            );
        },
    };
    let ghost base = seq![
        ("public_key"@, PlistModel::Data(public_key@)),
        ("private_key"@, PlistModel::Data(private_key@)),
        ("identifier"@, PlistModel::Text(identifier@)),
    ];
    let mut entries: Vec<(String, PlistValue)> = vec![
        ("public_key".to_string(), PlistValue::Data(public_key)),
        ("private_key".to_string(), PlistValue::Data(private_key)),
        ("identifier".to_string(), PlistValue::Text(identifier)),
    ];
    let irk: Option<Vec<u8>> = match first_field(source, "alt_irk", "irk") {
        Some(v) => Some(v),
        None => data_field(source, "host_alt_irk"),
    };
    if let Some(irk) = irk {
        if irk.len() == 16 {
            let ghost key = irk@;
            entries.push(("alt_irk".to_string(), PlistValue::Data(irk)));
            let r: PlistDictionary = PlistDictionary { entries };
            proof {
                assert(r@ =~= base.push(("alt_irk"@, PlistModel::Data(key))));
            }
            return Ok(r);
        }
    }
    let r: PlistDictionary = PlistDictionary { entries };
    proof {
        assert(r@ =~= base);
    }
    Ok(r)
}

/// The record that the pairing library reads from a record of the system, given as the bytes of a
/// property list: it is brought into the form in which records are kept, written as XML, and read.
pub open spec fn kept_record(bytes: Seq<u8>, local_identifier: Option<Seq<char>>) -> Option<
    Seq<(Seq<char>, PlistModel)>,
> {
    match dictionary_plist(bytes) {
        Some(source) => match normalized(source, local_identifier) {
            Normalized::Record(record) => match plist_as_xml(PlistModel::Dict(record)) {
                Some(xml) => match dictionary_plist(xml) {
                    Some(d) => if is_pairing_record(d) {
                        Some(d)
                    } else {
                        None
                    },
                    None => None,
                },
                None => None,
            },
            Normalized::Refused(_) => None,
        },
        None => None,
    }
}

/// The record holds these keys and this identifier.
pub open spec fn holds_keys(d: Seq<(Seq<char>, PlistModel)>, keys: PairingKeys) -> bool {
    &&& data_entry(d, "public_key"@) == Some(keys.public_key@)
    &&& data_entry(d, "private_key"@) == Some(keys.private_key@)
    &&& text_entry(d, "identifier"@) == Some(keys.identifier@)
}

/// Why a record of the system gives no keys.
pub open spec fn record_error(
    bytes: Seq<u8>,
    local_identifier: Option<Seq<char>>,
    e: PlumeError,
) -> bool {
    match dictionary_plist(bytes) {
        None => e is Plist,
        Some(source) => match normalized(source, local_identifier) {
            Normalized::Refused(message) => e matches PlumeError::Other(m) && m@ == message,
            Normalized::Record(record) => if plist_as_xml(PlistModel::Dict(record)) is None {
                e is Plist
            } else {
                e is Idevice
            },
        },
    }
}

/// A record of the system whose keys and identifier pass through unchanged: the identifier is
/// printable.
pub open spec fn passes_through(bytes: Seq<u8>, local_identifier: Option<Seq<char>>) -> bool {
    dictionary_plist(bytes) matches Some(source) && (normalized(
        source,
        local_identifier,
    ) matches Normalized::Record(record) && (text_entry(record, "identifier"@) matches Some(id)
        && printable(id)))
}

/// The form in which a record of the system is kept, where there is one.
pub open spec fn normal_form(bytes: Seq<u8>, local_identifier: Option<Seq<char>>) -> Seq<
    (Seq<char>, PlistModel),
> {
    normalized(dictionary_plist(bytes)->0, local_identifier)->Record_0
}

/// A record in the form in which records are kept can be written and read back, where its
/// identifier is printable.
proof fn lemma_normalized_is_flat(
    source: Seq<(Seq<char>, PlistModel)>,
    local_identifier: Option<Seq<char>>,
)
    ensures
        normalized(source, local_identifier) matches Normalized::Record(d) ==> {
            &&& d.len() >= 3
            &&& d[0].0 == "public_key"@ && d[0].1 is Data
            &&& text_entry(d, "identifier"@) matches Some(id) && (printable(id) ==> flat(d))
            &&& data_entry(d, "public_key"@) matches Some(k) && k.len() == 32
            &&& data_entry(d, "private_key"@) matches Some(k) && k.len() == 32
        },
{
    reveal_strlit("public_key");
    reveal_strlit("private_key");
    reveal_strlit("identifier");
    reveal_strlit("alt_irk");
    if let Normalized::Record(d) = normalized(source, local_identifier) {
        assert("public_key"@.len() == 10 && "private_key"@.len() == 11);
        assert("identifier"@.len() == 10 && "alt_irk"@.len() == 7);
        assert("public_key"@[0] == 'p' && "identifier"@[0] == 'i');
        assert(key_index(d, "public_key"@, 0) == 0);
        assert(key_index(d, "private_key"@, 1) == 1);
        assert(key_index(d, "private_key"@, 0) == 1);
        assert(key_index(d, "identifier"@, 2) == 2);
        assert(key_index(d, "identifier"@, 1) == 2);
        assert(key_index(d, "identifier"@, 0) == 2);
        assert(printable("public_key"@));
        assert(printable("private_key"@));
        assert(printable("identifier"@));
        assert(printable("alt_irk"@));
        assert(text_entry(d, "identifier"@) == d[2].1.text());
        if printable(d[2].1->Text_0) {
            assert forall|i: int, j: int| 0 <= i < j < d.len() implies d[i].0 != d[j].0 by {}
            assert(flat(d));
        }
    }
}

/// The keys in a record of the system, given as the bytes of a property list. Keys and identifier
/// pass through unchanged where the identifier is printable; they are then accepted where the public
/// key is one.
pub fn external_pairing_file_from_bytes(bytes: &[u8], local_identifier: Option<String>) -> (r:
    Result<PairingKeys, PlumeError>)
    requires
        dates_fit(bytes@),
    ensures
        match r {
            Ok(keys) => kept_record(bytes@, opt_text(local_identifier)) matches Some(d)
                && holds_keys(d, keys) && keys.irk() == data_entry(d, "alt_irk"@),
            Err(e) => kept_record(bytes@, opt_text(local_identifier)) is None && record_error(
                bytes@,
                opt_text(local_identifier),
                e,
            ),
        },
        passes_through(bytes@, opt_text(local_identifier)) ==> {
            let record = normal_form(bytes@, opt_text(local_identifier));
            &&& r is Ok == ed25519_public_key(data_entry(record, "public_key"@)->0)
            &&& r matches Ok(keys) ==> holds_keys(record, keys) && keys.irk() == data_entry(
                record,
                "alt_irk"@,
            )
        },
{
    let source: PlistDictionary = match read_dictionary(bytes) {
        Ok(d) => d,
        Err(e) => {
            return Err(PlumeError::Plist(e));
        },
    };
    let record: PlistDictionary = match normalize_record(&source, local_identifier) {
        Ok(d) => d,
        Err(e) => {
            return Err(e);
        },
    };
    proof {
        lemma_normalized_is_writable(source@, opt_text(local_identifier));
        lemma_normalized_is_flat(source@, opt_text(local_identifier));
        let model = PlistModel::Dict(record@);
        assert(model->Dict_0 == record@);
    }
    let xml: Vec<u8> = match write_xml_plist(&PlistValue::Dict(record)) {
        Ok(xml) => xml,
        Err(e) => {
            return Err(PlumeError::Plist(e));
        },
    };
    match read_pairing_record(xml.as_slice()) {
        Ok(keys) => Ok(keys),
        Err(e) => Err(PlumeError::Idevice(e)),
    }
}

/// The bytes under the first of three keys that holds sixteen of them.
pub open spec fn peer_irk(peer: Seq<(Seq<char>, PlistModel)>) -> Option<Seq<u8>> {
    if data_entry(peer, "irk"@) matches Some(k) && k.len() == 16 {
        data_entry(peer, "irk"@)
    } else if data_entry(peer, "altIRK"@) matches Some(k) && k.len() == 16 {
        data_entry(peer, "altIRK"@)
    } else if data_entry(peer, "alt_irk"@) matches Some(k) && k.len() == 16 {
        data_entry(peer, "alt_irk"@)
    } else {
        None
    }
}

fn find_peer_irk(peer: &PlistDictionary) -> (r: Option<Vec<u8>>)
    ensures
        opt_data(r) == peer_irk(peer@),
{
    if let Some(k) = data_field(peer, "irk") {
        if k.len() == 16 {
            return Some(k);
        }
    }
    if let Some(k) = data_field(peer, "altIRK") {
        if k.len() == 16 {
            return Some(k);
        }
    }
    if let Some(k) = data_field(peer, "alt_irk") {
        if k.len() == 16 {
            return Some(k);
        }
    }
    None
}

/// The resolving keys of the first `n` peers that can be read and have one.
pub open spec fn peer_irks(peers: Seq<Vec<u8>>, n: int) -> Seq<Seq<u8>>
    decreases n,
{
    if n <= 0 {
        seq![]
    } else {
        let head = peer_irks(peers, n - 1);
        match dictionary_plist(peers[n - 1]@) {
            Some(peer) => match peer_irk(peer) {
                Some(irk) => head.push(irk),
                None => head,
            },
            None => head,
        }
    }
}

/// The dates in the records of all peers can be read.
pub open spec fn peers_fit(peers: Seq<Vec<u8>>) -> bool {
    forall|i: int| 0 <= i < peers.len() ==> dates_fit((#[trigger] peers[i])@)
}

/// Whether the dates in the records of all peers can be read.
pub fn peers_are_fit(peers: &Vec<Vec<u8>>) -> (r: bool)
    ensures
        r == peers_fit(peers@),
{
    let mut i: usize = 0;
    while i < peers.len()
        invariant
            i <= peers@.len(),
            forall|j: int| 0 <= j < i ==> dates_fit((#[trigger] peers@[j])@),
        decreases peers@.len() - i,
    {
        if !dates_are_fit(peers[i].as_slice()) {
            proof {
                assert(!dates_fit(peers@[i as int]@));
            }
            return false;
        }
        i += 1;
    }
    true
}

/// The records to try, made from the keys of this machine: first without a resolving key, then with
/// that of each peer.
pub fn native_pairing_candidates(host: PairingKeys, peers: &Vec<Vec<u8>>) -> (r: Vec<PairingKeys>)
    requires
        peers_fit(peers@),
    ensures
        r@.len() == 1 + peer_irks(peers@, peers@.len() as int).len(),
        r@[0].same_but_irk(host) && r@[0].irk() is None,
        forall|i: int|
            1 <= i < r@.len() ==> (#[trigger] r@[i]).same_but_irk(host) && r@[i].irk() == Some(
                peer_irks(peers@, peers@.len() as int)[i - 1],
            ),
{
    let mut r: Vec<PairingKeys> = vec![host.with_irk(None)];
    let mut i: usize = 0;
    while i < peers.len()
        invariant
            i <= peers@.len(),
            peers_fit(peers@),
            r@.len() == 1 + peer_irks(peers@, i as int).len(),
            r@[0].same_but_irk(host) && r@[0].irk() is None,
            forall|j: int|
                1 <= j < r@.len() ==> (#[trigger] r@[j]).same_but_irk(host) && r@[j].irk() == Some(
                    peer_irks(peers@, i as int)[j - 1],
                ),
        decreases peers@.len() - i,
    {
        if let Ok(peer) = read_dictionary(peers[i].as_slice()) {
            if let Some(irk) = find_peer_irk(&peer) {
                r.push(host.with_irk(Some(irk)));
            }
        }
        i += 1;
    }
    r
}

/// The records to try, from the bytes of this machine's record and of its peers.
pub fn native_pairing_candidates_from_bytes(
    host_bytes: &[u8],
    peer_bytes: &Vec<Vec<u8>>,
    local_identifier: Option<String>,
) -> (r: Result<Vec<PairingKeys>, PlumeError>)
    requires
        dates_fit(host_bytes@),
        kept_record(host_bytes@, opt_text(local_identifier)) is Some ==> peers_fit(peer_bytes@),
    ensures
        match r {
            Ok(candidates) => {
                let irks = peer_irks(peer_bytes@, peer_bytes@.len() as int);
                &&& kept_record(host_bytes@, opt_text(local_identifier)) matches Some(d) && forall|
                    i: int,
                |
                    0 <= i < candidates@.len() ==> holds_keys(d, #[trigger] candidates@[i])
                &&& candidates@.len() == 1 + irks.len()
                &&& candidates@[0].irk() is None
                &&& forall|i: int|
                    1 <= i < candidates@.len() ==> (#[trigger] candidates@[i]).irk() == Some(
                        irks[i - 1],
                    )
            },
            Err(e) => kept_record(host_bytes@, opt_text(local_identifier)) is None && record_error(
                host_bytes@,
                opt_text(local_identifier),
                e,
            ),
        },
        passes_through(host_bytes@, opt_text(local_identifier)) ==> {
            let record = normal_form(host_bytes@, opt_text(local_identifier));
            &&& r is Ok == ed25519_public_key(data_entry(record, "public_key"@)->0)
            &&& r matches Ok(candidates) ==> forall|i: int|
                0 <= i < candidates@.len() ==> holds_keys(record, #[trigger] candidates@[i])
        },
{
    match external_pairing_file_from_bytes(host_bytes, local_identifier) {
        Ok(host) => Ok(native_pairing_candidates(host, peer_bytes)),
        Err(e) => Err(e),
    }
}

/// Where a candidate comes from: the record of this machine first, then its peers.
pub open spec fn source_text(index: int, path: Seq<char>, peer_paths: Seq<Seq<char>>) -> Seq<char> {
    if 1 <= index <= peer_paths.len() {
        peer_paths[index - 1]
    } else {
        path
    }
}

/// Where a candidate comes from, for messages: the record of this machine first, then its peers.
pub fn candidate_source(index: usize, path: &str, peer_paths: &Vec<String>) -> (r: String)
    ensures
        r@ == source_text(index as int, path@, texts(peer_paths@)),
{
    if index >= 1 && index - 1 < peer_paths.len() {
        peer_paths[index - 1].clone()
    } else {
        path.to_string()
    }
}

/// The paths of the records of this machine, from the names of the directories below `dir` that hold
/// one: each once, in the order of the names.
pub fn external_pairing_paths(dir: &str, names: Vec<String>) -> (r: Vec<String>)
    ensures
        exists|sorted: Seq<Seq<char>>| #[trigger]
            sorted_set(sorted, texts(names@)) && texts(r@) == sorted.map_values(
                |name: Seq<char>| path_join(path_join(dir@, name), "selfIdentity.plist"@),
            ),
{
    let sorted: Vec<String> = sorted_texts(names);
    let n: usize = sorted.len();
    let mut r: Vec<String> = Vec::new();
    let mut i: usize = 0;
    while i < n
        invariant
            i <= n == sorted@.len(),
            r@.len() == i,
            forall|j: int|
                0 <= j < i ==> (#[trigger] r@[j])@ == path_join(
                    path_join(dir@, sorted@[j]@),
                    "selfIdentity.plist"@,
                ),
        decreases n - i,
    {
        let below: String = join_path(dir, sorted[i].as_str());
        r.push(join_path(below.as_str(), "selfIdentity.plist"));
        i += 1;
    }
    proof {
        assert(texts(r@) =~= texts(sorted@).map_values(
            |name: Seq<char>| path_join(path_join(dir@, name), "selfIdentity.plist"@),
        ));
        assert(sorted_set(texts(sorted@), texts(names@)));
    }
    r
}

/// A record of this machine on disk, and those of its peers. A record that could not be read has no
/// bytes; of the peers only the bytes that could be read are there.
#[derive(Debug)]
pub struct ExternalRecord {
    pub path: String,
    pub bytes: Option<Vec<u8>>,
    pub peer_paths: Vec<String>,
    pub peer_bytes: Vec<Vec<u8>>,
}

impl ExternalRecord {
    /// What the pairing library reads from the record.
    pub open spec fn kept(self, local_identifier: Option<Seq<char>>) -> Option<
        Seq<(Seq<char>, PlistModel)>,
    > {
        match self.bytes {
            Some(bytes) => kept_record(bytes@, local_identifier),
            None => None,
        }
    }

    /// The dates in the record can be read, and those of its peers too where the record gives keys.
    pub open spec fn fits(self, local_identifier: Option<Seq<char>>) -> bool {
        &&& self.bytes matches Some(bytes) ==> dates_fit(bytes@)
        &&& self.kept(local_identifier) is Some ==> peers_fit(self.peer_bytes@)
    }

    /// Whether the dates in the record can be read, and those of its peers too where the record gives
    /// keys.
    pub fn is_fit(&self, local_identifier: &Option<String>) -> (r: bool)
        ensures
            r == self.fits(opt_text(*local_identifier)),
    {
        match &self.bytes {
            Some(bytes) => if dates_are_fit(bytes.as_slice()) {
                let named: Option<String> = local_identifier.clone();
                match external_pairing_file_from_bytes(bytes.as_slice(), named) {
                    Ok(_) => peers_are_fit(&self.peer_bytes),
                    Err(_) => true,
                }
            } else {
                false
            },
            None => true,
        }
    }

    pub open spec fn irks(self) -> Seq<Seq<u8>> {
        peer_irks(self.peer_bytes@, self.peer_bytes@.len() as int)
    }

    /// How many candidates the record gives.
    pub open spec fn count(self, local_identifier: Option<Seq<char>>) -> nat {
        if self.kept(local_identifier) is Some {
            1 + self.irks().len()
        } else {
            0
        }
    }

    /// The candidate at `index` of the record.
    pub open spec fn gives(
        self,
        local_identifier: Option<Seq<char>>,
        index: int,
        source: Seq<char>,
        keys: PairingKeys,
    ) -> bool {
        &&& self.kept(local_identifier) matches Some(d) && holds_keys(d, keys)
        &&& source == source_text(index, self.path@, texts(self.peer_paths@))
        &&& keys.irk() == if index == 0 {
            None
        } else {
            Some(self.irks()[index - 1])
        }
    }
}

/// How many candidates the first `n` records give.
pub open spec fn counted(
    records: Seq<ExternalRecord>,
    local_identifier: Option<Seq<char>>,
    n: int,
) -> nat
    decreases n,
{
    if n <= 0 {
        0
    } else {
        counted(records, local_identifier, n - 1) + records[n - 1].count(local_identifier)
    }
}

/// The candidates are those of the first `n` records, one record after the other.
pub open spec fn collects(
    candidates: Seq<(String, PairingKeys)>,
    records: Seq<ExternalRecord>,
    local_identifier: Option<Seq<char>>,
    n: int,
) -> bool {
    &&& candidates.len() == counted(records, local_identifier, n)
    &&& forall|i: int, k: int|
        #![trigger records[i].count(local_identifier), candidates[k]]
        0 <= i < n && counted(records, local_identifier, i) <= k < counted(
            records,
            local_identifier,
            i,
        ) + records[i].count(local_identifier) ==> records[i].gives(
            local_identifier,
            k - counted(records, local_identifier, i),
            candidates[k].0@,
            candidates[k].1,
        )
}

proof fn lemma_counted_grows(
    records: Seq<ExternalRecord>,
    local_identifier: Option<Seq<char>>,
    i: int,
    n: int,
)
    requires
        0 <= i < n,
    ensures
        counted(records, local_identifier, i) + records[i].count(local_identifier) <= counted(
            records,
            local_identifier,
            n,
        ),
    decreases n,
{
    if i < n - 1 {
        lemma_counted_grows(records, local_identifier, i, n - 1);
    }
}

/// The candidates that the records of this machine and of its peers give; none where a date that
/// would be read cannot be.
pub fn checked_external_pairing_candidates(
    records: &Vec<ExternalRecord>,
    local_identifier: &Option<String>,
) -> (r: Option<Vec<(String, PairingKeys)>>)
    ensures
        ({
            let local = opt_text(*local_identifier);
            let fit = forall|i: int|
                0 <= i < records@.len() ==> (#[trigger] records@[i]).fits(local);
            match r {
                Some(candidates) => fit && collects(
                    candidates@,
                    records@,
                    local,
                    records@.len() as int,
                ),
                None => !fit,
            }
        }),
{
    let n: usize = records.len();
    let mut i: usize = 0;
    while i < n
        invariant
            i <= n == records@.len(),
            forall|k: int|
                0 <= k < i ==> (#[trigger] records@[k]).fits(opt_text(*local_identifier)),
        decreases n - i,
    {
        if !records[i].is_fit(local_identifier) {
            proof {
                assert(!records@[i as int].fits(opt_text(*local_identifier)));
            }
            return None;
        }
        i += 1;
    }
    Some(external_pairing_candidates(records, local_identifier))
}

/// The candidates that the records of this machine and of its peers give, each with the path that it
/// comes from. A record that gives no keys is passed over.
pub fn external_pairing_candidates(
    records: &Vec<ExternalRecord>,
    local_identifier: &Option<String>,
) -> (r: Vec<(String, PairingKeys)>)
    requires
        forall|i: int|
            0 <= i < records@.len() ==> (#[trigger] records@[i]).fits(opt_text(*local_identifier)),
    ensures
        collects(r@, records@, opt_text(*local_identifier), records@.len() as int),
{
    let ghost local = opt_text(*local_identifier);
    let mut all: Vec<(String, PairingKeys)> = Vec::new();
    let n: usize = records.len();
    let mut i: usize = 0;
    while i < n
        invariant
            i <= n == records@.len(),
            forall|k: int| 0 <= k < records@.len() ==> (#[trigger] records@[k]).fits(local),
            local == opt_text(*local_identifier),
            collects(all@, records@, local, i as int),
        decreases n - i,
    {
        let ghost before = all@;
        let record: &ExternalRecord = &records[i];
        let found: Option<Vec<PairingKeys>> = match &record.bytes {
            Some(bytes) => {
                let named: Option<String> = local_identifier.clone();
                match native_pairing_candidates_from_bytes(
                    bytes.as_slice(),
                    &record.peer_bytes,
                    named,
                ) {
                    Ok(candidates) => Some(candidates),
                    Err(_) => None,
                }
            },
            None => None,
        };
        proof {
            assert(found is Some == record.kept(local) is Some);
        }
        if let Some(candidates) = found {
            let ghost given = candidates@;
            let total: usize = candidates.len();
            let mut rest: Vec<PairingKeys> = candidates;
            let mut index: usize = 0;
            while index < total
                invariant
                    index <= total == given.len(),
                    rest@ == given.skip(index as int),
                    given.len() == record.count(local),
                    before.len() == counted(records@, local, i as int),
                    all@.len() == before.len() + index,
                    forall|k: int| 0 <= k < before.len() ==> all@[k] == before[k],
                    forall|j: int|
                        0 <= j < index ==> #[trigger] record.gives(
                            local,
                            j,
                            all@[before.len() + j].0@,
                            all@[before.len() + j].1,
                        ),
                    forall|j: int|
                        0 <= j < given.len() ==> (record.kept(local) matches Some(d) && holds_keys(
                            d,
                            #[trigger] given[j],
                        )),
                    given.len() >= 1,
                    given[0].irk() is None,
                    forall|j: int|
                        1 <= j < given.len() ==> (#[trigger] given[j]).irk() == Some(
                            record.irks()[j - 1],
                        ),
                decreases total - index,
            {
                let keys: PairingKeys = rest.remove(0);
                let source: String = candidate_source(
                    index,
                    record.path.as_str(),
                    &record.peer_paths,
                );
                proof {
                    assert(keys == given[index as int]);
                    assert(rest@ =~= given.skip(index + 1));
                    assert(record.gives(local, index as int, source@, keys));
                }
                all.push((source, keys));
                index += 1;
            }
        }
        proof {
            let c = counted(records@, local, i as int);
            assert(all@.len() == counted(records@, local, i + 1));
            assert forall|a: int, k: int|
                #![trigger records@[a].count(local), all@[k]]
                0 <= a < i + 1 && counted(records@, local, a) <= k < counted(records@, local, a)
                    + records@[a].count(local) implies records@[a].gives(
                local,
                k - counted(records@, local, a),
                all@[k].0@,
                all@[k].1,
            ) by {
                if a < i {
                    lemma_counted_grows(records@, local, a, i as int);
                    assert(all@[k] == before[k]);
                } else {
                    let j = k - c;
                    assert(all@[before.len() + j] == all@[k]);
                    assert(record.gives(
                        local,
                        j,
                        all@[before.len() + j].0@,
                        all@[before.len() + j].1,
                    ));
                }
            }
        }
        i += 1;
    }
    all
}

/// The peer in a record of the system is the device: an Apple TV of its name, and of its product
/// type where that is known.
pub open spec fn peer_is_device(
    peer: Seq<(Seq<char>, PlistModel)>,
    name: Seq<char>,
    product_type: Option<Seq<char>>,
) -> bool {
    &&& text_entry(peer, "model"@) matches Some(model) && is_prefix("appletv"@, lower(model)) && (
    product_type matches Some(expected) ==> lower(expected) == lower(model))
    &&& text_entry(peer, "name"@) matches Some(n) && lower(n) == lower(name)
}

impl Device {
    /// Whether a peer record of the system, given as bytes, is of this device.
    pub fn is_native_peer(&self, peer_bytes: &[u8]) -> (r: bool)
        requires
            dates_fit(peer_bytes@),
        ensures
            r == (dictionary_plist(peer_bytes@) matches Some(peer) && peer_is_device(
                peer,
                self.name@,
                opt_text(self.product_type),
            )),
    {
        match read_dictionary(peer_bytes) {
            Ok(peer) => self.matches_peer(&peer),
            Err(_) => false,
        }
    }

    /// Whether a peer record of the system is of this device.
    pub fn matches_peer(&self, peer: &PlistDictionary) -> (r: bool)
        ensures
            r == peer_is_device(peer@, self.name@, opt_text(self.product_type)),
    {
        let model: String = match text_field(peer, "model") {
            Some(m) => ascii_lowercase(m.as_str()),
            None => {
                return false;
            },
        };
        let expected: bool = match &self.product_type {
            Some(p) => same_text(ascii_lowercase(p.as_str()).as_str(), model.as_str()),
            None => true,
        };
        if !starts_with(model.as_str(), "appletv") || !expected {
            return false;
        }
        match text_field(peer, "name") {
            Some(n) => same_text(
                ascii_lowercase(n.as_str()).as_str(),
                ascii_lowercase(self.name.as_str()).as_str(),
            ),
            None => false,
        }
    }
}

// ---------------------------------------------------------------------------
// What taking over a record is for
// ---------------------------------------------------------------------------

/// A record of the system is taken over exactly where it holds two keys of 32 bytes and has an
/// identifier, its own or that of this machine.
pub proof fn law_complete_records_are_taken_over(
    source: Seq<(Seq<char>, PlistModel)>,
    local_identifier: Option<Seq<char>>,
)
    ensures
        normalized(source, local_identifier) is Record <==> {
            &&& match data_entry(source, "public_key"@) {
                Some(k) => k.len() == 32,
                None => data_entry(source, "publicKey"@) matches Some(k) && k.len() == 32,
            }
            &&& match data_entry(source, "private_key"@) {
                Some(k) => k.len() == 32,
                None => data_entry(source, "privateKey"@) matches Some(k) && k.len() == 32,
            }
            &&& text_entry(source, "identifier"@) is Some || text_entry(
                source,
                "host_identifier"@,
            ) is Some || local_identifier is Some
        },
{
}

/// The keys of a record that is taken over are those that it holds, unchanged and not exchanged, and
/// its identifier is its own wherever it has one.
pub proof fn law_keys_are_taken_over_unchanged(
    source: Seq<(Seq<char>, PlistModel)>,
    local_identifier: Option<Seq<char>>,
)
    requires
        normalized(source, local_identifier) is Record,
    ensures
        ({
            let record = normalized(source, local_identifier)->Record_0;
            &&& data_entry(source, "public_key"@) is Some ==> data_entry(record, "public_key"@)
                == data_entry(source, "public_key"@)
            &&& data_entry(source, "public_key"@) is None ==> data_entry(record, "public_key"@)
                == data_entry(source, "publicKey"@)
            &&& data_entry(source, "private_key"@) is Some ==> data_entry(record, "private_key"@)
                == data_entry(source, "private_key"@)
            &&& data_entry(source, "private_key"@) is None ==> data_entry(record, "private_key"@)
                == data_entry(source, "privateKey"@)
            &&& text_entry(source, "identifier"@) is Some ==> text_entry(record, "identifier"@)
                == text_entry(source, "identifier"@)
            &&& text_entry(source, "identifier"@) is None && text_entry(
                source,
                "host_identifier"@,
            ) is None ==> text_entry(record, "identifier"@) == local_identifier
            &&& data_entry(record, "alt_irk"@) matches Some(irk) ==> irk.len() == 16 && (data_entry(
                source,
                "alt_irk"@,
            ) == Some(irk) || data_entry(source, "irk"@) == Some(irk) || data_entry(
                source,
                "host_alt_irk"@,
            ) == Some(irk))
        }),
{
    reveal_strlit("public_key");
    reveal_strlit("private_key");
    reveal_strlit("identifier");
    reveal_strlit("alt_irk");
    let d = normalized(source, local_identifier)->Record_0;
    assert("public_key"@.len() == 10 && "private_key"@.len() == 11);
    assert("identifier"@.len() == 10 && "alt_irk"@.len() == 7);
    assert("public_key"@[0] == 'p' && "identifier"@[0] == 'i');
    assert(key_index(d, "public_key"@, 0) == 0);
    assert(key_index(d, "private_key"@, 1) == 1);
    assert(key_index(d, "private_key"@, 0) == 1);
    assert(key_index(d, "identifier"@, 2) == 2);
    assert(key_index(d, "identifier"@, 1) == 2);
    assert(key_index(d, "identifier"@, 0) == 2);
    assert(key_index(d, "alt_irk"@, 3) == 3);
    assert(key_index(d, "alt_irk"@, 2) == 3);
    assert(key_index(d, "alt_irk"@, 1) == 3);
    assert(key_index(d, "alt_irk"@, 0) == 3);
}

/// The resolving key of a peer has sixteen bytes and is one that the peer's record holds; one is found
/// wherever there is one.
pub proof fn law_peer_keys_have_sixteen_bytes(peer: Seq<(Seq<char>, PlistModel)>)
    ensures
        peer_irk(peer) matches Some(k) ==> k.len() == 16 && (data_entry(peer, "irk"@) == Some(k)
            || data_entry(peer, "altIRK"@) == Some(k) || data_entry(peer, "alt_irk"@) == Some(k)),
        peer_irk(peer) is None ==> forall|k: Seq<u8>|
            k.len() == 16 ==> data_entry(peer, "irk"@) != Some(k) && data_entry(peer, "altIRK"@)
                != Some(k) && #[trigger] data_entry(peer, "alt_irk"@) != Some(k),
{
}

/// A peer is a device only where it is an Apple TV of its name and, where it is known, its product.
pub proof fn law_peer_of_another_device(
    peer: Seq<(Seq<char>, PlistModel)>,
    name: Seq<char>,
    product_type: Option<Seq<char>>,
)
    requires
        peer_is_device(peer, name, product_type),
    ensures
        text_entry(peer, "name"@) matches Some(n) && lower(n) == lower(name),
        text_entry(peer, "model"@) matches Some(m) && m.len() >= 7,
        product_type matches Some(p) ==> (text_entry(peer, "model"@) matches Some(m) && lower(m)
            == lower(p)),
{
    reveal_strlit("appletv");
}

/// The name of this machine comes from the environment, else from the command, and is none where both
/// are blank.
pub proof fn law_host_name_is_not_blank(env: Option<Seq<char>>, command: Option<Seq<char>>)
    ensures
        host_name(env, command) matches Some(n) ==> trimmed(n).len() > 0 || n.len() > 0,
        env matches Some(n) && trimmed(n).len() > 0 ==> host_name(env, command) == env,
        host_name(env, command) is None <==> (env matches Some(n) ==> trimmed(n).len() == 0) && (
        command matches Some(c) ==> trimmed(c).len() == 0),
{
}

/// Each peer that can be read and has a key is tried with it, once, and no other.
pub proof fn law_every_peer_key_is_tried(peers: Seq<Vec<u8>>, n: int, key: Seq<u8>)
    requires
        0 <= n <= peers.len(),
    ensures
        peer_irks(peers, n).len() <= n,
        peer_irks(peers, n).contains(key) <==> exists|i: int|
            0 <= i < n && (dictionary_plist((#[trigger] peers[i])@) matches Some(p) && peer_irk(p)
                == Some(key)),
    decreases n,
{
    if n > 0 {
        law_every_peer_key_is_tried(peers, n - 1, key);
        let head = peer_irks(peers, n - 1);
        let all = peer_irks(peers, n);
        if head.contains(key) {
            let k = choose|k: int| 0 <= k < head.len() && head[k] == key;
            assert(all[k] == key);
        }
        if all.contains(key) {
            let k = choose|k: int| 0 <= k < all.len() && all[k] == key;
            if k < head.len() {
                assert(head[k] == key);
            } else {
                assert(dictionary_plist(peers[n - 1]@) matches Some(p) && peer_irk(p) == Some(key));
            }
        }
        if dictionary_plist(peers[n - 1]@) matches Some(p) && peer_irk(p) == Some(key) {
            assert(all[head.len() as int] == key);
        }
    }
}

/// The key of a record is the one it names first of the three names that it may have.
pub proof fn law_key_of_a_record(source: Seq<(Seq<char>, PlistModel)>)
    ensures
        data_entry(source, "alt_irk"@) is Some ==> record_irk(source) == data_entry(
            source,
            "alt_irk"@,
        ),
        data_entry(source, "alt_irk"@) is None && data_entry(source, "irk"@) is Some ==> record_irk(
            source,
        ) == data_entry(source, "irk"@),
        data_entry(source, "alt_irk"@) is None && data_entry(source, "irk"@) is None ==> record_irk(
            source,
        ) == data_entry(source, "host_alt_irk"@),
{
}

/// Each record that can be kept gives the candidate of its own keys, without the key of a peer and told
/// by the path of the record.
pub proof fn law_each_kept_record_is_a_candidate(
    candidates: Seq<(String, PairingKeys)>,
    records: Seq<ExternalRecord>,
    local_identifier: Option<Seq<char>>,
    n: int,
    i: int,
)
    requires
        0 <= i < n <= records.len(),
        collects(candidates, records, local_identifier, n),
        records[i].kept(local_identifier) is Some,
    ensures
        exists|k: int|
            0 <= k < candidates.len() && (#[trigger] candidates[k]).1.irk() is None
                && candidates[k].0@ == records[i].path@ && holds_keys(
                records[i].kept(local_identifier)->0,
                candidates[k].1,
            ),
        candidates.len() >= counted(records, local_identifier, i) + 1,
{
    let k = counted(records, local_identifier, i) as int;
    lemma_counted_grows(records, local_identifier, i, n);
    assert(records[i].count(local_identifier) >= 1);
    assert(counted(records, local_identifier, i + 1) == k + records[i].count(local_identifier));
    assert(k < candidates.len());
    let c = candidates[k];
    assert(records[i].gives(local_identifier, 0, c.0@, c.1));
}

/// A candidate with the key of a peer is told by the path of that peer, any other by the path of the
/// record.
pub proof fn law_candidates_are_told_by_their_file(
    index: int,
    path: Seq<char>,
    peer_paths: Seq<Seq<char>>,
)
    ensures
        source_text(0, path, peer_paths) == path,
        0 <= index < peer_paths.len() ==> source_text(index + 1, path, peer_paths)
            == peer_paths[index],
        source_text(peer_paths.len() as int + 1, path, peer_paths) == path,
{
}

} // verus!
