//! The pairing records that are kept in a directory.
use crate::error::PlumeError;
use crate::outside::{
    auth_tag_matches, auth_tag_valid, dictionary_plist, is_pairing_record, plist_as_xml,
    read_dictionary, read_pairing_record, reads_back, write_xml_plist,
};
use crate::paths::{
    extension, extension_of, file_name, file_name_of, join_path, law_extension_splits,
    law_joined_file_name, path_join, stem, stem_of,
};
use crate::plist_dates::{dates_are_fit, dates_fit};
use crate::plist_model::group_plist_models;
use crate::plist_value::{
    data_entry, flat, text_entry, Instant, PlistDictionary, PlistModel, PlistValue,
};
use crate::records::PairingKeys;
use crate::sort::{
    in_order, key_le, keys_of, lemma_key_of_two, lemma_text_key, sort_items, text_key, KeyOrder,
};
use crate::table::{held, keys_distinct, law_stored_then_held, slot, stored, Table};
use crate::text::{
    chars_of, ends_with, is_alnum, is_suffix, join2, join4, opt_text, same_text, text_not_after,
};
use crate::wireless::PairedDevice;
use vstd::prelude::*;

verus! {

broadcast use group_plist_models;

/// What is kept of a pairing.
#[derive(Debug, Clone)]
pub struct PairingRecord {
    pub udid: String,
    pub name: String,
    pub model: String,
    pub account_id: String,
    pub pairing_file_path: String,
}

/// The content of a record.
#[verifier::ext_equal]
pub ghost struct RecordModel {
    pub udid: Seq<char>,
    pub name: Seq<char>,
    pub model: Seq<char>,
    pub account_id: Seq<char>,
    pub path: Seq<char>,
}

impl View for PairingRecord {
    type V = RecordModel;

    open spec fn view(&self) -> RecordModel {
        RecordModel {
            udid: self.udid@,
            name: self.name@,
            model: self.model@,
            account_id: self.account_id@,
            path: self.pairing_file_path@,
        }
    }
}

impl PairingRecord {
    /// The record in a list.
    pub fn to_text(&self) -> (r: String)
        ensures
            r@ == self.name@ + " ("@ + self.model@ + ") ["@ + (self.udid@ + "]"@),
    {
        join2(
            join4(self.name.as_str(), " (", self.model.as_str(), ") [").as_str(),
            join2(self.udid.as_str(), "]").as_str(),
        )
    }
}

// ---------------------------------------------------------------------------
// File names
// ---------------------------------------------------------------------------

/// A character that may stand in the name of a record's file.
pub open spec fn stem_char(c: char) -> bool {
    is_alnum(c) || c == '-' || c == '_'
}

/// An identifier that may be the name of a record's file: it cannot lead out of the directory.
pub open spec fn valid_stem(udid: Seq<char>) -> bool {
    0 < udid.len() <= 128 && forall|i: int| 0 <= i < udid.len() ==> stem_char(#[trigger] udid[i])
}

fn is_valid_stem(udid: &str) -> (r: bool)
    ensures
        r == valid_stem(udid@),
{
    let chars: Vec<char> = chars_of(udid);
    if chars.len() == 0 || chars.len() > 128 {
        return false;
    }
    let mut i: usize = 0;
    while i < chars.len()
        invariant
            chars@ == udid@,
            i <= chars@.len(),
            forall|j: int| 0 <= j < i ==> stem_char(#[trigger] udid@[j]),
        decreases chars@.len() - i,
    {
        let c: char = chars[i];
        if !(('A' <= c && c <= 'Z') || ('a' <= c && c <= 'z') || ('0' <= c && c <= '9') || c == '-'
            || c == '_') {
            proof {
                assert(!stem_char(udid@[i as int]));
            }
            return false;
        }
        i += 1;
    }
    true
}

/// The name of a record's file without its extension. The identifier comes from a device, so what
/// could lead out of the directory is refused.
pub fn file_stem(udid: &str) -> (r: Result<&str, PlumeError>)
    ensures
        match r {
            Ok(s) => valid_stem(udid@) && s@ == udid@,
            Err(PlumeError::PairingInvalidUdid(u)) => !valid_stem(udid@) && u@ == udid@,
            Err(_) => false,
        },
{
    if is_valid_stem(udid) {
        Ok(udid)
    } else {
        Err(PlumeError::PairingInvalidUdid(udid.to_string()))
    }
}

/// The name of the file with the keys.
pub open spec fn keys_name(udid: Seq<char>) -> Seq<char> {
    udid + ".plist"@
}

/// The name of the file with what else is known of the device.
pub open spec fn info_name(udid: Seq<char>) -> Seq<char> {
    udid + ".info.plist"@
}

/// The identifier of the pairing whose keys are in the file at `path`; none for other files.
pub open spec fn udid_of_path(path: Seq<char>) -> Option<Seq<char>> {
    match file_name_of(path) {
        Some(name) => if extension_of(name) == Some("plist"@) && !is_suffix(
            ".info"@,
            stem_of(name),
        ) {
            Some(stem_of(name))
        } else {
            None
        },
        None => None,
    }
}

/// The identifier of the pairing whose keys are in the file at `path`; none for other files.
pub fn pairing_file_udid(path: &str) -> (r: Option<String>)
    ensures
        opt_text(r) == udid_of_path(path@),
{
    let name: String = match file_name(path) {
        Some(n) => n,
        None => {
            return None;
        },
    };
    let is_plist: bool = match extension(name.as_str()) {
        Some(e) => same_text(e.as_str(), "plist"),
        None => false,
    };
    if !is_plist {
        return None;
    }
    let s: String = stem(name.as_str());
    if ends_with(s.as_str(), ".info") {
        return None;
    }
    Some(s)
}

proof fn lemma_no_slash(udid: Seq<char>, tail: Seq<char>)
    requires
        valid_stem(udid),
        !tail.contains('/'),
    ensures
        !(udid + tail).contains('/'),
{
    let name = udid + tail;
    if name.contains('/') {
        let i = choose|i: int| 0 <= i < name.len() && name[i] == '/';
        if i < udid.len() {
            assert(stem_char(udid[i]));
        } else {
            assert(tail[i - udid.len()] == '/');
        }
    }
}

/// The files of a pairing lie directly in the directory of the store.
pub proof fn law_files_stay_in_directory(dir: Seq<char>, udid: Seq<char>)
    requires
        valid_stem(udid),
    ensures
        file_name_of(path_join(dir, keys_name(udid))) == Some(keys_name(udid)),
        file_name_of(path_join(dir, info_name(udid))) == Some(info_name(udid)),
{
    reveal_strlit(".plist");
    reveal_strlit(".info.plist");
    lemma_no_slash(udid, ".plist"@);
    lemma_no_slash(udid, ".info.plist"@);
    assert(keys_name(udid).len() > 2);
    assert(info_name(udid).len() > 2);
    law_joined_file_name(dir, keys_name(udid));
    law_joined_file_name(dir, info_name(udid));
}

/// The file with the keys of a pairing is recognised by its name, and the file beside it is not
/// taken for one.
#[verifier::spinoff_prover]
pub proof fn law_files_are_recognised(dir: Seq<char>, udid: Seq<char>)
    requires
        valid_stem(udid),
    ensures
        udid_of_path(path_join(dir, keys_name(udid))) == Some(udid),
        udid_of_path(path_join(dir, info_name(udid))) is None,
{
    law_files_stay_in_directory(dir, udid);
    reveal_strlit(".plist");
    reveal_strlit(".info.plist");
    reveal_strlit("plist");
    reveal_strlit(".info");
    let ext = "plist"@;
    assert(!ext.contains('.'));
    assert(keys_name(udid) =~= udid + seq!['.'] + ext);
    law_extension_splits(udid, ext);
    assert(!is_suffix(".info"@, udid)) by {
        if is_suffix(".info"@, udid) {
            let tail = udid.subrange(udid.len() - 5, udid.len() as int);
            assert(tail[0] == '.');
            assert(udid[udid.len() - 5] == '.');
            assert(stem_char(udid[udid.len() - 5]));
        }
    }
    let stem = udid + ".info"@;
    assert(info_name(udid) =~= stem + seq!['.'] + ext);
    law_extension_splits(stem, ext);
    assert(stem.subrange(stem.len() - 5, stem.len() as int) =~= ".info"@);
}

// ---------------------------------------------------------------------------
// The store
// ---------------------------------------------------------------------------

/// The files of a directory under their names.
pub type Files = Table<String, Vec<u8>>;

/// The content of [`Files`].
pub type FilesModel = Seq<(Seq<char>, Seq<u8>)>;

/// The pairings in a directory. Each has a file with its keys and one beside it with the name and
/// the model of the device.
#[derive(Debug, Clone)]
pub struct PairingStore {
    pub dir: String,
}

/// What stands beside the keys of a pairing.
pub open spec fn info_entries(device: PairedDevice, now: Instant) -> Seq<(Seq<char>, PlistModel)> {
    seq![
        ("udid"@, PlistModel::Text(device.udid@)),
        ("name"@, PlistModel::Text(device.name@)),
        ("model"@, PlistModel::Text(device.model@)),
        ("account_id"@, PlistModel::Text(device.account_id@)),
        ("paired_at"@, PlistModel::Time(now)),
    ]
}

fn info_dictionary(device: &PairedDevice, now: Instant) -> (r: PlistDictionary)
    ensures
        r@ == info_entries(*device, now),
{
    let r: PlistDictionary = PlistDictionary {
        entries: vec![
            ("udid".to_string(), PlistValue::Text(device.udid.clone())),
            ("name".to_string(), PlistValue::Text(device.name.clone())),
            ("model".to_string(), PlistValue::Text(device.model.clone())),
            ("account_id".to_string(), PlistValue::Text(device.account_id.clone())),
            ("paired_at".to_string(), PlistValue::Time(now)),
        ],
    };
    proof {
        assert(r@ =~= info_entries(*device, now));
    }
    r
}

/// What is known of a pairing beside its keys; none where that cannot be read.
pub open spec fn info_of(files: FilesModel, udid: Seq<char>) -> Option<
    Seq<(Seq<char>, PlistModel)>,
> {
    match held(files, info_name(udid)) {
        Some(bytes) => dictionary_plist(bytes),
        None => None,
    }
}

/// A text of what is known, or a default.
pub open spec fn info_field(
    info: Option<Seq<(Seq<char>, PlistModel)>>,
    key: Seq<char>,
    default: Seq<char>,
) -> Seq<char> {
    match info {
        Some(d) => match text_entry(d, key) {
            Some(s) => s,
            None => default,
        },
        None => default,
    }
}

/// The record of a pairing. The keys alone are still of use, so what is missing has a default.
pub open spec fn record_of(dir: Seq<char>, files: FilesModel, udid: Seq<char>) -> RecordModel {
    let info = info_of(files, udid);
    RecordModel {
        udid,
        name: info_field(info, "name"@, udid),
        model: info_field(info, "model"@, "Unknown"@),
        account_id: info_field(info, "account_id"@, ""@),
        path: path_join(dir, keys_name(udid)),
    }
}

/// The records of the pairings among the first `n` files. A file whose name is no valid identifier
/// is passed over.
pub open spec fn records_among(dir: Seq<char>, files: FilesModel, n: int) -> Seq<RecordModel>
    decreases n,
{
    if n <= 0 {
        seq![]
    } else {
        let head = records_among(dir, files, n - 1);
        match udid_of_path(files[n - 1].0) {
            Some(udid) if valid_stem(udid) => head.push(record_of(dir, files, udid)),
            _ => head,
        }
    }
}

/// What records are listed by: the name, then the identifier.
pub open spec fn record_order(r: RecordModel) -> Seq<Seq<int>> {
    seq![text_key(r.name), text_key(r.udid)]
}

/// The order in which records are listed.
pub struct RecordOrder;

impl KeyOrder<PairingRecord> for RecordOrder {
    open spec fn key(&self, item: PairingRecord) -> Seq<Seq<int>> {
        record_order(item@)
    }

    fn not_after(&self, a: &PairingRecord, b: &PairingRecord) -> (r: bool) {
        proof {
            lemma_key_of_two(
                text_key(a.name@),
                text_key(a.udid@),
                text_key(b.name@),
                text_key(b.udid@),
            );
            lemma_text_key(a.name@, b.name@);
            lemma_text_key(a.udid@, b.udid@);
            crate::text::lemma_text_le_reflexive(a.udid@);
        }
        if same_text(a.name.as_str(), b.name.as_str()) {
            text_not_after(a.udid.as_str(), b.udid.as_str())
        } else {
            text_not_after(a.name.as_str(), b.name.as_str())
        }
    }
}

/// The contents of a list of records.
pub open spec fn record_models(v: Seq<PairingRecord>) -> Seq<RecordModel> {
    v.map_values(|r: PairingRecord| r@)
}

/// The keys that records are listed by.
pub open spec fn record_orders(v: Seq<RecordModel>) -> Seq<Seq<Seq<int>>> {
    v.map_values(|r: RecordModel| record_order(r))
}

/// The resolving key of a pairing; none where its keys cannot be read or hold none.
pub open spec fn irk_of(files: FilesModel, udid: Seq<char>) -> Option<Seq<u8>> {
    match held(files, keys_name(udid)) {
        Some(bytes) => match dictionary_plist(bytes) {
            Some(d) if is_pairing_record(d) => data_entry(d, "alt_irk"@),
            _ => None,
        },
        None => None,
    }
}

/// The tag that a device advertises with an identifier is that of a pairing.
pub open spec fn tag_is_of(
    files: FilesModel,
    udid: Seq<char>,
    identifier: Seq<char>,
    tag: Seq<char>,
) -> bool {
    irk_of(files, udid) matches Some(irk) && auth_tag_valid(irk, identifier, tag)
}

/// The files after a pairing was saved, where `info` is what was written beside the keys.
pub open spec fn saved(
    files: FilesModel,
    udid: Seq<char>,
    keys: Seq<u8>,
    info: Seq<u8>,
) -> FilesModel {
    stored(stored(files, keys_name(udid), keys), info_name(udid), info)
}

/// `files` without the one with the given name.
pub open spec fn without_file(files: FilesModel, name: Seq<char>) -> FilesModel {
    let i = slot(files, name, 0);
    if i < files.len() {
        files.remove(i)
    } else {
        files
    }
}

fn remove_if_present(files: &mut Files, name: String) -> (r: bool)
    ensures
        final(files)@ == without_file(old(files)@, name@),
        r == (held(old(files)@, name@) is Some),
{
    let i: usize = files.index_of(&name);
    let ghost before = files@;
    if i < files.entries.len() {
        let _ = files.entries.remove(i);
        proof {
            assert(files@ =~= before.remove(i as int));
        }
        true
    } else {
        false
    }
}

/// The dates in a file, where it is there, can be read.
pub open spec fn file_fits(files: FilesModel, name: Seq<char>) -> bool {
    held(files, name) matches Some(bytes) ==> dates_fit(bytes)
}

/// The identifier of the pairing that a file is listed as; none for a file that is passed over.
pub open spec fn listed_as(name: Seq<char>) -> Option<Seq<char>> {
    match udid_of_path(name) {
        Some(udid) if valid_stem(udid) => Some(udid),
        _ => None,
    }
}

/// The dates beside the keys of each pairing that is listed can be read; with `keys`, those in the
/// keys too.
pub open spec fn pairings_fit(files: FilesModel, keys: bool) -> bool {
    forall|i: int|
        0 <= i < files.len() ==> pairing_fits(files, listed_as((#[trigger] files[i]).0), keys)
}

/// The dates beside the keys of a pairing can be read; with `keys`, those in the keys too.
pub open spec fn pairing_fits(files: FilesModel, udid: Option<Seq<char>>, keys: bool) -> bool {
    udid matches Some(u) ==> file_fits(files, info_name(u)) && (keys ==> file_fits(
        files,
        keys_name(u),
    ))
}

fn file_is_fit(files: &Files, name: String) -> (r: bool)
    ensures
        r == file_fits(files@, name@),
{
    match files.find(&name) {
        Some(bytes) => dates_are_fit(bytes.as_slice()),
        None => true,
    }
}

/// Whether the dates beside the keys of each pairing that is listed can be read; with `keys`, those
/// in the keys too.
pub fn pairings_are_fit(files: &Files, keys: bool) -> (r: bool)
    ensures
        r == pairings_fit(files@, keys),
{
    let n: usize = files.entries.len();
    let mut i: usize = 0;
    while i < n
        invariant
            i <= n == files.entries@.len(),
            forall|j: int|
                0 <= j < i ==> pairing_fits(
                    files@,
                    listed_as((#[trigger] files@[j]).0),
                    keys,
                ),
        decreases n - i,
    {
        proof {
            assert(files@[i as int].0 == files.entries@[i as int].0@);
        }
        if let Some(udid) = pairing_file_udid(files.entries[i].0.as_str()) {
            if file_stem(udid.as_str()).is_ok() {
                if !file_is_fit(files, join2(udid.as_str(), ".info.plist")) || (keys && !file_is_fit(
                    files,
                    join2(udid.as_str(), ".plist"),
                )) {
                    proof {
                        assert(!pairing_fits(files@, listed_as(files@[i as int].0), keys));
                    }
                    return false;
                }
            }
        }
        i += 1;
    }
    proof {
        assert(files@.len() == n);
    }
    true
}

/// Saving a pairing whose files can be read keeps all pairings readable, and so does removing one.
pub proof fn law_pairings_stay_readable(
    files: FilesModel,
    udid: Seq<char>,
    keys: Seq<u8>,
    info: Seq<u8>,
    with_keys: bool,
)
    requires
        keys_distinct(files),
        valid_stem(udid),
        pairings_fit(files, with_keys),
    ensures
        dates_fit(info) && (with_keys ==> dates_fit(keys)) ==> pairings_fit(
            saved(files, udid, keys, info),
            with_keys,
        ),
        pairings_fit(
            without_file(without_file(files, keys_name(udid)), info_name(udid)),
            with_keys,
        ),
{
    let after = saved(files, udid, keys, info);
    let once = stored(files, keys_name(udid), keys);
    if dates_fit(info) && (with_keys ==> dates_fit(keys)) {
        assert forall|i: int| 0 <= i < after.len() implies pairing_fits(
            after,
            listed_as((#[trigger] after[i]).0),
            with_keys,
        ) by {
            if let Some(u) = listed_as(after[i].0) {
                lemma_names_stay_apart(udid, u);
                law_stored_then_held(files, keys_name(udid), keys, keys_name(u));
                law_stored_then_held(files, keys_name(udid), keys, info_name(u));
                law_stored_then_held(once, info_name(udid), info, keys_name(u));
                law_stored_then_held(once, info_name(udid), info, info_name(u));
                if u != udid {
                    lemma_stored_name(once, info_name(udid), info, i);
                    assert(udid_of_path(info_name(udid)) is None && udid_of_path(keys_name(udid))
                        == Some(udid)) by {
                        law_files_are_recognised(Seq::empty(), udid);
                    }
                    lemma_stored_name(files, keys_name(udid), keys, i);
                    assert(pairing_fits(files, listed_as(files[i].0), with_keys));
                }
            }
        }
    }
    let first = without_file(files, keys_name(udid));
    let rest = without_file(first, info_name(udid));
    lemma_without_fits(files, keys_name(udid), with_keys);
    lemma_without_file(files, keys_name(udid), keys_name(udid));
    lemma_without_fits(first, info_name(udid), with_keys);
}

/// The names of the files of two pairings differ.
proof fn lemma_names_stay_apart(a: Seq<char>, b: Seq<char>)
    requires
        valid_stem(a),
        valid_stem(b),
    ensures
        keys_name(a) != info_name(b),
        info_name(a) != keys_name(b),
        a != b ==> keys_name(a) != keys_name(b) && info_name(a) != info_name(b),
{
    law_files_are_recognised(Seq::empty(), a);
    law_files_are_recognised(Seq::empty(), b);
    if a != b {
        reveal_strlit(".plist");
        reveal_strlit(".info.plist");
        if info_name(a) == info_name(b) {
            let n = info_name(a).len() - 11;
            assert(info_name(a).take(n) =~= a);
            assert(info_name(b).take(n) =~= b);
        }
    }
}

/// An entry that is stored has the name that it is stored under, or is one that was there.
proof fn lemma_stored_name(files: FilesModel, name: Seq<char>, data: Seq<u8>, i: int)
    requires
        0 <= i < stored(files, name, data).len(),
    ensures
        stored(files, name, data)[i].0 == name || (i < files.len() && stored(files, name, data)[i]
            == files[i]),
{
    crate::table::lemma_slot(files, name, 0);
}

proof fn lemma_without_fits(files: FilesModel, name: Seq<char>, with_keys: bool)
    requires
        keys_distinct(files),
        pairings_fit(files, with_keys),
    ensures
        pairings_fit(without_file(files, name), with_keys),
{
    let k = slot(files, name, 0);
    let rest = without_file(files, name);
    crate::table::lemma_slot(files, name, 0);
    assert forall|i: int| 0 <= i < rest.len() implies pairing_fits(
        rest,
        listed_as((#[trigger] rest[i]).0),
        with_keys,
    ) by {
        if let Some(u) = listed_as(rest[i].0) {
            lemma_without_file(files, name, info_name(u));
            lemma_without_file(files, name, keys_name(u));
            if k < files.len() && i >= k {
                assert(rest[i] == files[i + 1]);
            } else {
                assert(rest[i] == files[i]);
            }
        }
    }
}

/// The pairing whose tag a device advertises with an identifier is the first in the list with that
/// tag; none where no pairing has it.
pub open spec fn is_find_result(
    dir: Seq<char>,
    files: FilesModel,
    identifier: Seq<char>,
    auth_tag: Seq<char>,
    r: Option<PairingRecord>,
) -> bool {
    let all = records_among(dir, files, files.len() as int);
    match r {
        Some(record) => all.contains(record@) && tag_is_of(
            files,
            record.udid@,
            identifier,
            auth_tag,
        ) && forall|i: int|
            0 <= i < all.len() && tag_is_of(files, (#[trigger] all[i]).udid, identifier, auth_tag)
                ==> key_le(record_order(record@), record_order(all[i])),
        None => forall|i: int|
            0 <= i < all.len() ==> !tag_is_of(
                files,
                (#[trigger] all[i]).udid,
                identifier,
                auth_tag,
            ),
    }
}

impl PairingStore {
    pub fn new(dir: String) -> (r: PairingStore)
        ensures
            r.dir == dir,
    {
        PairingStore { dir }
    }

    pub fn directory(&self) -> (r: &str)
        ensures
            r@ == self.dir@,
    {
        self.dir.as_str()
    }

    /// The outcome of naming a file of a pairing.
    pub open spec fn names(
        self,
        udid: Seq<char>,
        name: Seq<char>,
        r: Result<String, PlumeError>,
    ) -> bool {
        match r {
            Ok(path) => valid_stem(udid) && path@ == path_join(self.dir@, name),
            Err(PlumeError::PairingInvalidUdid(u)) => !valid_stem(udid) && u@ == udid,
            Err(_) => false,
        }
    }

    pub fn pairing_file_path(&self, udid: &str) -> (r: Result<String, PlumeError>)
        ensures
            self.names(udid@, keys_name(udid@), r),
    {
        match file_stem(udid) {
            Ok(s) => Ok(join_path(self.dir.as_str(), join2(s, ".plist").as_str())),
            Err(e) => Err(e),
        }
    }

    pub fn info_path(&self, udid: &str) -> (r: Result<String, PlumeError>)
        ensures
            self.names(udid@, info_name(udid@), r),
    {
        match file_stem(udid) {
            Ok(s) => Ok(join_path(self.dir.as_str(), join2(s, ".info.plist").as_str())),
            Err(e) => Err(e),
        }
    }

    /// Saves a pairing: its keys, given as the bytes of their file, and beside them what is known of
    /// the device. Returns the path of the keys.
    pub fn save(
        &self,
        device: &PairedDevice,
        pairing_file: Vec<u8>,
        now: Instant,
        files: &mut Files,
    ) -> (r: Result<String, PlumeError>)
        requires
            now.in_calendar(),
        ensures
            match r {
                Ok(path) => valid_stem(device.udid@) && path@ == path_join(
                    self.dir@,
                    keys_name(device.udid@),
                ) && (plist_as_xml(PlistModel::Dict(info_entries(*device, now))) matches Some(info)
                    && final(files)@ == saved(
                    old(files)@,
                    device.udid@,
                    pairing_file@,
                    info,
                ) && dates_fit(info) && (flat(info_entries(*device, now)) ==> reads_back(
                    info_entries(*device, now),
                    dictionary_plist(info),
                ))),
                Err(PlumeError::PairingInvalidUdid(u)) => !valid_stem(device.udid@) && u@
                    == device.udid@ && final(files)@ == old(files)@,
                Err(PlumeError::Plist(_)) => valid_stem(device.udid@) && plist_as_xml(
                    PlistModel::Dict(info_entries(*device, now)),
                ) is None && final(files)@ == stored(
                    old(files)@,
                    keys_name(device.udid@),
                    pairing_file@,
                ) && !flat(info_entries(*device, now)),
                Err(_) => false,
            },
    {
        let path: String = match self.pairing_file_path(device.udid.as_str()) {
            Ok(p) => p,
            Err(e) => {
                return Err(e);
            },
        };
        files.insert(join2(device.udid.as_str(), ".plist"), pairing_file);
        let info: PlistDictionary = info_dictionary(device, now);
        proof {
            lemma_info_is_writable(*device, now);
        }
        match write_xml_plist(&PlistValue::Dict(info)) {
            Ok(bytes) => {
                files.insert(join2(device.udid.as_str(), ".info.plist"), bytes);
                Ok(path)
            },
            Err(e) => Err(PlumeError::Plist(e)),
        }
    }

    /// The keys of a pairing.
    pub fn load(&self, udid: &str, files: &Files) -> (r: Result<PairingKeys, PlumeError>)
        requires
            valid_stem(udid@) ==> file_fits(files@, keys_name(udid@)),
        ensures
            if !valid_stem(udid@) {
                r matches Err(PlumeError::PairingInvalidUdid(u)) && u@ == udid@
            } else {
                match held(files@, keys_name(udid@)) {
                    None => r matches Err(PlumeError::PairingNotFound(u)) && u@ == udid@,
                    Some(bytes) => match r {
                        Ok(keys) => dictionary_plist(bytes) matches Some(d) && is_pairing_record(d)
                            && data_entry(d, "public_key"@) == Some(keys.public_key@) && data_entry(
                            d,
                            "private_key"@,
                        ) == Some(keys.private_key@) && text_entry(d, "identifier"@) == Some(
                            keys.identifier@,
                        ) && data_entry(d, "alt_irk"@) == keys.irk(),
                        Err(PlumeError::Idevice(_)) => !(dictionary_plist(bytes) matches Some(d)
                            && is_pairing_record(d)),
                        Err(_) => false,
                    },
                }
            },
    {
        if let Err(e) = file_stem(udid) {
            return Err(e);
        }
        match files.find(&join2(udid, ".plist")) {
            None => Err(PlumeError::PairingNotFound(udid.to_string())),
            Some(bytes) => match read_pairing_record(bytes.as_slice()) {
                Ok(keys) => Ok(keys),
                Err(e) => Err(PlumeError::Idevice(e)),
            },
        }
    }

    /// The record of a pairing.
    pub fn record(&self, udid: &str, files: &Files) -> (r: Result<PairingRecord, PlumeError>)
        requires
            valid_stem(udid@) ==> file_fits(files@, info_name(udid@)),
        ensures
            match r {
                Ok(record) => valid_stem(udid@) && record@ == record_of(self.dir@, files@, udid@),
                Err(PlumeError::PairingInvalidUdid(u)) => !valid_stem(udid@) && u@ == udid@,
                Err(_) => false,
            },
    {
        let pairing_file_path: String = match self.pairing_file_path(udid) {
            Ok(p) => p,
            Err(e) => {
                return Err(e);
            },
        };
        let info: Option<PlistDictionary> = read_info(udid, files);
        Ok(
            PairingRecord {
                name: field_or(&info, "name", udid),
                model: field_or(&info, "model", "Unknown"),
                account_id: field_or(&info, "account_id", ""),
                udid: udid.to_string(),
                pairing_file_path,
            },
        )
    }

    /// The records of all pairings, in the order in which they are listed. A file that is no pairing
    /// hides no other.
    pub fn list(&self, files: &Files) -> (r: Vec<PairingRecord>)
        requires
            pairings_fit(files@, false),
        ensures
            record_models(r@).to_multiset() == records_among(
                self.dir@,
                files@,
                files@.len() as int,
            ).to_multiset(),
            in_order(record_orders(record_models(r@))),
    {
        let ghost model = files@;
        let mut records: Vec<PairingRecord> = Vec::new();
        let mut i: usize = 0;
        proof {
            assert(record_models(records@) =~= records_among(self.dir@, model, 0));
        }
        while i < files.entries.len()
            invariant
                i <= files.entries@.len(),
                model == files@,
                pairings_fit(files@, false),
                record_models(records@) == records_among(self.dir@, model, i as int),
            decreases files.entries@.len() - i,
        {
            let ghost before = records@;
            proof {
                assert(model[i as int].0 == files.entries@[i as int].0@);
            }
            if let Some(udid) = pairing_file_udid(files.entries[i].0.as_str()) {
                proof {
                    assert(pairing_fits(files@, listed_as(files@[i as int].0), false));
                }
                if let Ok(record) = self.record(udid.as_str(), files) {
                    let ghost shown = record@;
                    records.push(record);
                    proof {
                        assert(record_models(records@) =~= record_models(before).push(shown));
                    }
                }
            }
            i += 1;
        }
        let ghost collected = records@;
        let order: RecordOrder = RecordOrder;
        let r: Vec<PairingRecord> = sort_items(&order, records);
        proof {
            assert(model.len() == files.entries@.len());
            crate::sort::lemma_mapped_multiset(r@, collected, |x: PairingRecord| x@);
            assert(keys_of(order, r@) =~= record_orders(record_models(r@)));
        }
        r
    }

    /// The pairing whose tag a device advertises with an identifier: the first in the list.
    pub fn find(&self, identifier: &str, auth_tag: &str, files: &Files) -> (r: Option<PairingRecord>)
        requires
            pairings_fit(files@, true),
        ensures
            is_find_result(self.dir@, files@, identifier@, auth_tag@, r),
    {
        let ghost all = records_among(self.dir@, files@, files@.len() as int);
        let mut records: Vec<PairingRecord> = self.list(files);
        let ghost listed = record_models(records@);
        let ghost mut n: int = 0;
        proof {
            assert(listed.skip(0) =~= listed);
            all.to_multiset_ensures();
            listed.to_multiset_ensures();
            assert forall|m: RecordModel| #[trigger] all.contains(m) == listed.contains(m) by {
                assert(all.to_multiset().count(m) == listed.to_multiset().count(m));
            }
            assert forall|i: int| 0 <= i < all.len() implies valid_stem((#[trigger] all[i]).udid)
                && file_fits(files@, keys_name(all[i].udid)) by {
                lemma_record_is_listed(self.dir@, files@, files@.len() as int, i);
                let j = choose|j: int|
                    0 <= j < files@.len() && listed_as((#[trigger] files@[j]).0) == Some(
                        all[i].udid,
                    );
                assert(pairing_fits(files@, listed_as(files@[j].0), true));
            }
        }
        while records.len() > 0
            invariant
                0 <= n <= listed.len(),
                record_models(records@) == listed.skip(n),
                all == records_among(self.dir@, files@, files@.len() as int),
                in_order(record_orders(listed)),
                forall|m: RecordModel| #[trigger] all.contains(m) == listed.contains(m),
                forall|i: int|
                    0 <= i < all.len() ==> valid_stem((#[trigger] all[i]).udid) && file_fits(
                        files@,
                        keys_name(all[i].udid),
                    ),
                forall|i: int|
                    0 <= i < n ==> !tag_is_of(
                        files@,
                        (#[trigger] listed[i]).udid,
                        identifier@,
                        auth_tag@,
                    ),
            decreases records@.len(),
        {
            let ghost before = records@;
            let record: PairingRecord = records.remove(0);
            proof {
                assert(record_models(before).len() == before.len());
                assert(listed.skip(n).len() > 0);
                assert(record_models(before)[0] == record@);
                assert(listed.skip(n)[0] == listed[n]);
                assert(listed[n] == record@);
                assert forall|k: int| 0 <= k < records@.len() implies record_models(records@)[k]
                    == listed.skip(n + 1)[k] by {
                    assert(records@[k] == before[k + 1]);
                    assert(record_models(before)[k + 1] == listed.skip(n)[k + 1]);
                }
                assert(record_models(records@) =~= listed.skip(n + 1));
                assert(listed.contains(listed[n]));
                assert(all.contains(record@));
                let k = choose|k: int| 0 <= k < all.len() && all[k] == record@;
                assert(valid_stem(all[k].udid));
            }
            if self.tag_matches(record.udid.as_str(), identifier, auth_tag, files) {
                proof {
                    assert forall|i: int|
                        0 <= i < all.len() && tag_is_of(
                            files@,
                            (#[trigger] all[i]).udid,
                            identifier@,
                            auth_tag@,
                        ) implies key_le(record_order(record@), record_order(all[i])) by {
                        assert(all.contains(all[i]));
                        assert(listed.contains(all[i]));
                        let j = choose|j: int| 0 <= j < listed.len() && listed[j] == all[i];
                        assert(record_orders(listed)[j] == record_order(all[i]));
                        assert(record_orders(listed)[n] == record_order(record@));
                        if j < n {
                            assert(!tag_is_of(files@, listed[j].udid, identifier@, auth_tag@));
                        } else if j == n {
                            crate::sort::lemma_key_le(
                                record_order(record@),
                                record_order(record@),
                            );
                        }
                    }
                }
                return Some(record);
            }
            proof {
                n = n + 1;
            }
        }
        proof {
            assert forall|i: int| 0 <= i < all.len() implies !tag_is_of(
                files@,
                (#[trigger] all[i]).udid,
                identifier@,
                auth_tag@,
            ) by {
                assert(all.contains(all[i]));
                assert(listed.contains(all[i]));
            }
        }
        None
    }

    fn tag_matches(&self, udid: &str, identifier: &str, auth_tag: &str, files: &Files) -> (r: bool)
        requires
            valid_stem(udid@),
            file_fits(files@, keys_name(udid@)),
        ensures
            r == tag_is_of(files@, udid@, identifier@, auth_tag@),
    {
        match self.load(udid, files) {
            Ok(keys) => match &keys.alt_irk {
                Some(irk) => auth_tag_matches(irk.as_slice(), identifier, auth_tag),
                None => false,
            },
            Err(_) => false,
        }
    }

    /// Removes a pairing. Returns whether it was there.
    pub fn remove(&self, udid: &str, files: &mut Files) -> (r: Result<bool, PlumeError>)
        ensures
            match r {
                Ok(removed) => valid_stem(udid@) && removed == (held(
                    old(files)@,
                    keys_name(udid@),
                ) is Some) && final(files)@ == without_file(
                    without_file(old(files)@, keys_name(udid@)),
                    info_name(udid@),
                ),
                Err(PlumeError::PairingInvalidUdid(u)) => !valid_stem(udid@) && u@ == udid@
                    && final(files)@ == old(files)@,
                Err(_) => false,
            },
    {
        if let Err(e) = file_stem(udid) {
            return Err(e);
        }
        let removed: bool = remove_if_present(files, join2(udid, ".plist"));
        let _ = remove_if_present(files, join2(udid, ".info.plist"));
        Ok(removed)
    }
}

fn read_info(udid: &str, files: &Files) -> (r: Option<PlistDictionary>)
    requires
        file_fits(files@, info_name(udid@)),
    ensures
        match r {
            Some(d) => info_of(files@, udid@) == Some(d@),
            None => info_of(files@, udid@) is None,
        },
{
    match files.find(&join2(udid, ".info.plist")) {
        Some(bytes) => match read_dictionary(bytes.as_slice()) {
            Ok(d) => Some(d),
            Err(_) => None,
        },
        None => None,
    }
}

fn field_or(info: &Option<PlistDictionary>, key: &str, default: &str) -> (r: String)
    ensures
        r@ == info_field(
            match info {
                Some(d) => Some(d@),
                None => None,
            },
            key@,
            default@,
        ),
{
    if let Some(d) = info {
        if let Some(v) = d.get(key) {
            if let Some(s) = v.as_text() {
                return s.clone();
            }
        }
    }
    default.to_string()
}

/// Each record is that of a file which is listed.
proof fn lemma_record_is_listed(dir: Seq<char>, files: FilesModel, n: int, i: int)
    requires
        0 <= n <= files.len(),
        0 <= i < records_among(dir, files, n).len(),
    ensures
        valid_stem(records_among(dir, files, n)[i].udid),
        exists|j: int|
            0 <= j < n && listed_as((#[trigger] files[j]).0) == Some(
                records_among(dir, files, n)[i].udid,
            ),
    decreases n,
{
    let head = records_among(dir, files, n - 1);
    if i < head.len() {
        lemma_record_is_listed(dir, files, n - 1, i);
    } else {
        assert(listed_as(files[n - 1].0) is Some);
    }
}

proof fn lemma_info_is_writable(device: PairedDevice, now: Instant)
    requires
        now.in_calendar(),
    ensures
        crate::plist_value::writable(PlistModel::Dict(info_entries(device, now))),
{
    let d = info_entries(device, now);
    let model = PlistModel::Dict(d);
    assert(model->Dict_0 == d);
    assert forall|i: int| 0 <= i < d.len() implies crate::plist_value::writable(
        (#[trigger] d[i]).1,
    ) by {}
    assert(forall|i: int|
        0 <= i < model->Dict_0.len() ==> crate::plist_value::writable(
            (#[trigger] model->Dict_0[i]).1,
        ));
    assert(crate::plist_value::writable(model));
}

// ---------------------------------------------------------------------------
// Laws
// ---------------------------------------------------------------------------

proof fn lemma_names_differ(udid: Seq<char>)
    ensures
        keys_name(udid) != info_name(udid),
{
    reveal_strlit(".plist");
    reveal_strlit(".info.plist");
    assert(keys_name(udid).len() != info_name(udid).len());
}

/// The keys of a pairing that was saved are those that are read back, byte for byte, and what stands
/// beside them is what was written there.
pub proof fn law_saved_files_are_read(
    files: FilesModel,
    udid: Seq<char>,
    keys: Seq<u8>,
    info: Seq<u8>,
)
    ensures
        held(saved(files, udid, keys, info), keys_name(udid)) == Some(keys),
        held(saved(files, udid, keys, info), info_name(udid)) == Some(info),
{
    lemma_names_differ(udid);
    let first = stored(files, keys_name(udid), keys);
    law_stored_then_held(files, keys_name(udid), keys, keys_name(udid));
    law_stored_then_held(first, info_name(udid), info, keys_name(udid));
    law_stored_then_held(first, info_name(udid), info, info_name(udid));
}

/// The record of a pairing that was saved has the name, the model and the account of the device.
pub proof fn law_saved_record(
    dir: Seq<char>,
    files: FilesModel,
    device: PairedDevice,
    keys: Seq<u8>,
    info: Seq<u8>,
    now: Instant,
)
    requires
        reads_back(info_entries(device, now), dictionary_plist(info)),
    ensures
        record_of(dir, saved(files, device.udid@, keys, info), device.udid@) == (RecordModel {
            udid: device.udid@,
            name: device.name@,
            model: device.model@,
            account_id: device.account_id@,
            path: path_join(dir, keys_name(device.udid@)),
        }),
{
    law_saved_files_are_read(files, device.udid@, keys, info);
    let d = info_entries(device, now);
    reveal_strlit("udid");
    reveal_strlit("name");
    reveal_strlit("model");
    reveal_strlit("account_id");
    reveal_strlit("paired_at");
    lemma_info_keys();
    assert(crate::plist_value::distinct_keys(d));
    crate::plist_value::lemma_lookup_at(d, 1);
    crate::plist_value::lemma_lookup_at(d, 2);
    crate::plist_value::lemma_lookup_at(d, 3);
    let back = dictionary_plist(info)->0;
    assert(text_entry(back, "name"@) == text_entry(d, "name"@));
    assert(text_entry(back, "model"@) == text_entry(d, "model"@));
    assert(text_entry(back, "account_id"@) == text_entry(d, "account_id"@));
}

proof fn lemma_info_keys()
    ensures
        "udid"@ != "name"@,
        "udid"@ != "model"@,
        "udid"@ != "account_id"@,
        "udid"@ != "paired_at"@,
        "name"@ != "model"@,
        "name"@ != "account_id"@,
        "name"@ != "paired_at"@,
        "model"@ != "account_id"@,
        "model"@ != "paired_at"@,
        "account_id"@ != "paired_at"@,
{
    reveal_strlit("udid");
    reveal_strlit("name");
    reveal_strlit("model");
    reveal_strlit("account_id");
    reveal_strlit("paired_at");
    assert("udid"@[0] == 'u');
    assert("name"@[0] == 'n');
    assert("udid"@.len() == 4);
    assert("name"@.len() == 4);
    assert("model"@.len() == 5);
    assert("account_id"@.len() == 10);
    assert("paired_at"@.len() == 9);
}

/// A record of a pairing whose keys are among the files is listed.
proof fn lemma_listed(dir: Seq<char>, files: FilesModel, udid: Seq<char>, i: int, n: int)
    requires
        valid_stem(udid),
        0 <= i < n <= files.len(),
        files[i].0 == keys_name(udid),
    ensures
        records_among(dir, files, n).contains(record_of(dir, files, udid)),
    decreases n,
{
    let all = records_among(dir, files, n);
    let head = records_among(dir, files, n - 1);
    assert(udid_of_path(keys_name(udid)) == Some(udid)) by {
        law_files_are_recognised(Seq::empty(), udid);
    }
    if i == n - 1 {
        assert(all[head.len() as int] == record_of(dir, files, udid));
    } else {
        lemma_listed(dir, files, udid, i, n - 1);
        let k = choose|k: int| 0 <= k < head.len() && head[k] == record_of(dir, files, udid);
        assert(all[k] == record_of(dir, files, udid));
    }
}

/// A pairing that was saved is among the records.
pub proof fn law_saved_pairing_is_listed(
    dir: Seq<char>,
    files: FilesModel,
    udid: Seq<char>,
    keys: Seq<u8>,
    info: Seq<u8>,
)
    requires
        valid_stem(udid),
    ensures
        ({
            let after = saved(files, udid, keys, info);
            records_among(dir, after, after.len() as int).contains(record_of(dir, after, udid))
        }),
{
    let after = saved(files, udid, keys, info);
    law_saved_files_are_read(files, udid, keys, info);
    crate::table::lemma_slot(after, keys_name(udid), 0);
    let i = slot(after, keys_name(udid), 0);
    lemma_listed(dir, after, udid, i, after.len() as int);
}

/// A pairing that was saved is found by the tag that its device advertises: the search then finds one.
pub proof fn law_saved_pairing_is_found(
    dir: Seq<char>,
    files: FilesModel,
    udid: Seq<char>,
    keys: Seq<u8>,
    info: Seq<u8>,
    irk: Seq<u8>,
    identifier: Seq<char>,
    tag: Seq<char>,
    r: Option<PairingRecord>,
)
    requires
        valid_stem(udid),
        dictionary_plist(keys) matches Some(d) && is_pairing_record(d) && data_entry(d, "alt_irk"@)
            == Some(irk),
        auth_tag_valid(irk, identifier, tag),
        is_find_result(dir, saved(files, udid, keys, info), identifier, tag, r),
    ensures
        r is Some,
{
    let after = saved(files, udid, keys, info);
    let all = records_among(dir, after, after.len() as int);
    let record = record_of(dir, after, udid);
    law_saved_files_are_read(files, udid, keys, info);
    law_saved_pairing_is_listed(dir, files, udid, keys, info);
    let i = choose|i: int| 0 <= i < all.len() && all[i] == record;
    assert(all[i].udid == udid);
    assert(tag_is_of(after, all[i].udid, identifier, tag));
}

/// A pairing that was removed is not found by any tag.
pub proof fn law_removed_pairing_is_not_found(
    dir: Seq<char>,
    files: FilesModel,
    udid: Seq<char>,
    identifier: Seq<char>,
    tag: Seq<char>,
    record: PairingRecord,
)
    requires
        keys_distinct(files),
        is_find_result(
            dir,
            without_file(without_file(files, keys_name(udid)), info_name(udid)),
            identifier,
            tag,
            Some(record),
        ),
    ensures
        record.udid@ != udid,
{
    law_removed_pairing_is_gone(files, udid, udid);
}

/// Where nothing was ever saved there are no records.
pub proof fn law_empty_store_has_no_records(dir: Seq<char>)
    ensures
        records_among(dir, Seq::empty(), 0).len() == 0,
{
}

/// A pairing that was removed is no longer among the files; others stay.
pub proof fn law_removed_pairing_is_gone(files: FilesModel, udid: Seq<char>, other: Seq<char>)
    requires
        keys_distinct(files),
    ensures
        held(
            without_file(without_file(files, keys_name(udid)), info_name(udid)),
            keys_name(udid),
        ) is None,
        other != keys_name(udid) && other != info_name(udid) ==> held(
            without_file(without_file(files, keys_name(udid)), info_name(udid)),
            other,
        ) == held(files, other),
{
    let first = without_file(files, keys_name(udid));
    lemma_without_file(files, keys_name(udid), keys_name(udid));
    lemma_without_file(files, keys_name(udid), other);
    lemma_without_file(first, info_name(udid), keys_name(udid));
    lemma_without_file(first, info_name(udid), other);
    lemma_names_differ(udid);
}

proof fn lemma_without_file(files: FilesModel, name: Seq<char>, other: Seq<char>)
    requires
        keys_distinct(files),
    ensures
        keys_distinct(without_file(files, name)),
        held(without_file(files, name), name) is None,
        other != name ==> held(without_file(files, name), other) == held(files, other),
{
    let i = slot(files, name, 0);
    let after = without_file(files, name);
    crate::table::lemma_slot(files, name, 0);
    crate::table::lemma_slot(after, name, 0);
    crate::table::lemma_slot(after, other, 0);
    crate::table::lemma_slot(files, other, 0);
    if i < files.len() {
        assert forall|a: int, b: int| 0 <= a < b < after.len() implies (#[trigger] after[a]).0 != (
        #[trigger] after[b]).0 by {
            let oa = if a < i {
                a
            } else {
                a + 1
            };
            let ob = if b < i {
                b
            } else {
                b + 1
            };
            assert(after[a] == files[oa] && after[b] == files[ob]);
        }
        let k = slot(after, name, 0);
        if k < after.len() {
            let ok = if k < i {
                k
            } else {
                k + 1
            };
            assert(after[k] == files[ok]);
        }
        if other != name {
            let j = slot(files, other, 0);
            if j < files.len() {
                let nj = if j < i {
                    j
                } else {
                    j - 1
                };
                assert(after[nj] == files[j]);
                assert forall|a: int| 0 <= a < nj implies (#[trigger] after[a]).0 != other by {
                    let oa = if a < i {
                        a
                    } else {
                        a + 1
                    };
                    assert(after[a] == files[oa]);
                }
                crate::table::lemma_slot_is(after, other, 0, nj);
            } else {
                assert forall|a: int| 0 <= a < after.len() implies (#[trigger] after[a]).0
                    != other by {
                    let oa = if a < i {
                        a
                    } else {
                        a + 1
                    };
                    assert(after[a] == files[oa]);
                }
                crate::table::lemma_slot_is(after, other, 0, after.len() as int);
            }
        }
    }
}

// ---------------------------------------------------------------------------
// What the store is for
// ---------------------------------------------------------------------------

/// Each record of the list stands for a file with keys of its own, under a valid identifier, and tells
/// the path of that file.
pub proof fn law_listed_records_have_keys(dir: Seq<char>, files: FilesModel, i: int)
    requires
        0 <= i < records_among(dir, files, files.len() as int).len(),
    ensures
        ({
            let record = records_among(dir, files, files.len() as int)[i];
            &&& 0 < record.udid.len() <= 128
            &&& !record.udid.contains('/') && !record.udid.contains('.')
            &&& exists|j: int|
                0 <= j < files.len() && udid_of_path((#[trigger] files[j]).0) == Some(record.udid)
            &&& record.path == path_join(dir, record.udid + ".plist"@)
        }),
{
    let n = files.len() as int;
    lemma_record_is_listed(dir, files, n, i);
    let record = records_among(dir, files, n)[i];
    lemma_record_form(dir, files, n, i);
    if record.udid.contains('/') {
        let k = choose|k: int| 0 <= k < record.udid.len() && record.udid[k] == '/';
        assert(stem_char(record.udid[k]));
    }
    if record.udid.contains('.') {
        let k = choose|k: int| 0 <= k < record.udid.len() && record.udid[k] == '.';
        assert(stem_char(record.udid[k]));
    }
    let j = choose|j: int|
        0 <= j < n && listed_as((#[trigger] files[j]).0) == Some(record.udid);
    assert(udid_of_path(files[j].0) == Some(record.udid));
}

proof fn lemma_record_form(dir: Seq<char>, files: FilesModel, n: int, i: int)
    requires
        0 <= n <= files.len(),
        0 <= i < records_among(dir, files, n).len(),
    ensures
        records_among(dir, files, n)[i] == record_of(
            dir,
            files,
            records_among(dir, files, n)[i].udid,
        ),
    decreases n,
{
    let head = records_among(dir, files, n - 1);
    if i < head.len() {
        lemma_record_form(dir, files, n - 1, i);
    }
}

/// Saving a pairing leaves every file of another pairing as it was.
pub proof fn law_saving_leaves_others_alone(
    files: FilesModel,
    udid: Seq<char>,
    keys: Seq<u8>,
    info: Seq<u8>,
    other: Seq<char>,
)
    requires
        other != udid + ".plist"@,
        other != udid + ".info.plist"@,
    ensures
        held(saved(files, udid, keys, info), other) == held(files, other),
{
    law_stored_then_held(files, keys_name(udid), keys, other);
    law_stored_then_held(stored(files, keys_name(udid), keys), info_name(udid), info, other);
}

/// A pairing without a readable file beside its keys is still listed, under its identifier.
pub proof fn law_keys_alone_are_a_pairing(dir: Seq<char>, files: FilesModel, udid: Seq<char>)
    requires
        held(files, udid + ".info.plist"@) is None,
    ensures
        record_of(dir, files, udid).name == udid,
        record_of(dir, files, udid).model == "Unknown"@,
        record_of(dir, files, udid).account_id == ""@,
{
}

/// The list goes by name, and by identifier where names are the same.
pub proof fn law_list_goes_by_name(a: RecordModel, b: RecordModel)
    requires
        key_le(record_order(a), record_order(b)),
    ensures
        a.name != b.name ==> crate::text::text_le(a.name, b.name),
        a.name == b.name ==> crate::text::text_le(a.udid, b.udid),
{
    crate::sort::lemma_key_of_two(
        text_key(a.name),
        text_key(a.udid),
        text_key(b.name),
        text_key(b.udid),
    );
    crate::sort::lemma_text_key(a.name, b.name);
    crate::sort::lemma_text_key(b.name, a.name);
    crate::sort::lemma_text_key(a.udid, b.udid);
    crate::text::lemma_text_le_reflexive(a.udid);
}

/// A tag is of a pairing only where the pairing has keys with a resolving key under which the tag is
/// valid.
pub proof fn law_tags_are_of_stored_keys(
    files: FilesModel,
    udid: Seq<char>,
    identifier: Seq<char>,
    tag: Seq<char>,
)
    requires
        tag_is_of(files, udid, identifier, tag),
    ensures
        held(files, udid + ".plist"@) matches Some(bytes) && (dictionary_plist(bytes) matches Some(d)
            && (data_entry(d, "alt_irk"@) matches Some(irk) && auth_tag_valid(
            irk,
            identifier,
            tag,
        ))),
{
}

/// A name that a device may have in the directory is not empty, not long, and holds letters, digits,
/// hyphens and underscores alone: it can lead nowhere else.
pub proof fn law_stems_are_plain(udid: Seq<char>)
    requires
        valid_stem(udid),
    ensures
        0 < udid.len() <= 128,
        forall|i: int|
            0 <= i < udid.len() ==> {
                let c = #[trigger] udid[i];
                ('a' <= c && c <= 'z') || ('A' <= c && c <= 'Z') || ('0' <= c && c <= '9') || c
                    == '-' || c == '_'
            },
{
}

/// The key of a stored device is the one that its file holds, and there is none without the file.
pub proof fn law_key_is_read_from_its_file(files: FilesModel, udid: Seq<char>)
    ensures
        irk_of(files, udid) matches Some(k) ==> exists|bytes: Seq<u8>|
            held(files, udid + ".plist"@) == Some(bytes) && (#[trigger] dictionary_plist(
                bytes,
            ) matches Some(d) && data_entry(d, "alt_irk"@) == Some(k)),
        held(files, udid + ".plist"@) is None ==> irk_of(files, udid) is None,
{
    if irk_of(files, udid) is Some {
        let bytes = held(files, udid + ".plist"@)->0;
        assert(dictionary_plist(bytes) is Some);
    }
}

/// A file of a device is named exactly where its identifier can be a name, and lies in the directory of
/// the store.
pub proof fn law_files_are_named(
    store: PairingStore,
    udid: Seq<char>,
    name: Seq<char>,
    r: Result<String, PlumeError>,
)
    requires
        store.names(udid, name, r),
    ensures
        r is Ok <==> valid_stem(udid),
        r matches Ok(path) ==> path@ == path_join(store.dir@, name),
        r matches Err(e) ==> (e matches PlumeError::PairingInvalidUdid(u) && u@ == udid),
{
}

} // verus!
