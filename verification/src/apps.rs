//! The apps on a device, and the devices of the multiplexing daemon.
use crate::device::UsbmuxdDevice;
use crate::error::PlumeError;
use crate::options::{app_by_id_or_name, SignerApp, SignerAppReal};
use crate::platform::opt_str;
use crate::plist_value::{PlistModel, PlistValue};
use crate::text::{
    decimal, decimal_text, eq_ignore_case, join3, opt_text, same_ignoring_case, same_opt, same_text,
    texts,
};
use crate::tvos::says;
use vstd::prelude::*;

verus! {

/// The text under a key, where there is one.
pub open spec fn field_text(info: PlistModel, key: Seq<char>) -> Option<Seq<char>> {
    match info.field(key) {
        Some(v) => v.text(),
        None => None,
    }
}

/// The name of an app: its display name, else its bundle name, else that of its executable.
pub open spec fn app_name(info: PlistModel) -> Option<Seq<char>> {
    if field_text(info, "CFBundleDisplayName"@) is Some {
        field_text(info, "CFBundleDisplayName"@)
    } else if field_text(info, "CFBundleName"@) is Some {
        field_text(info, "CFBundleName"@)
    } else {
        field_text(info, "CFBundleExecutable"@)
    }
}

fn text_under(info: &PlistValue, key: &str) -> (r: Option<String>)
    ensures
        opt_text(r) == field_text(info@, key@),
{
    match info.field(key) {
        Some(v) => match v.as_text() {
            Some(t) => Some(t.clone()),
            None => None,
        },
        None => None,
    }
}

/// The name of an app from what a device says of it.
pub fn get_app_name_from_info(info: &PlistValue) -> (r: Option<String>)
    ensures
        opt_text(r) == app_name(info@),
{
    if let Some(name) = text_under(info, "CFBundleDisplayName") {
        return Some(name);
    }
    if let Some(name) = text_under(info, "CFBundleName") {
        return Some(name);
    }
    text_under(info, "CFBundleExecutable")
}

/// The app that a bundle identifier and what the device says of it stand for.
pub open spec fn known_app(app: (String, PlistValue)) -> SignerApp {
    app_by_id_or_name(Some(app.0@), app_name(app.1@))
}

/// The apps and bundle identifiers among a list.
pub open spec fn found(v: Seq<SignerAppReal>) -> Seq<(SignerApp, Option<Seq<char>>)> {
    v.map_values(|a: SignerAppReal| (a.app, opt_text(a.bundle_id)))
}

/// An app with a bundle identifier is in the list.
pub open spec fn lists_bundle(v: Seq<(SignerApp, Option<Seq<char>>)>, id: Seq<char>) -> bool {
    exists|i: int| 0 <= i < v.len() && (#[trigger] v[i]).1 == Some(id)
}

/// The apps among the first `n` that take a pairing file, each bundle identifier once.
pub open spec fn pairing_apps(apps: Seq<(String, PlistValue)>, n: int) -> Seq<
    (SignerApp, Option<Seq<char>>),
>
    decreases n,
{
    if n <= 0 {
        seq![]
    } else {
        let before = pairing_apps(apps, n - 1);
        let app = known_app(apps[n - 1]);
        if app.takes_pairing_file_later() && !lists_bundle(before, apps[n - 1].0@) {
            before.push((app, Some(apps[n - 1].0@)))
        } else {
            before
        }
    }
}

/// The apps on a device that take a pairing file.
pub fn supported_apps(apps: &Vec<(String, PlistValue)>) -> (r: Vec<SignerAppReal>)
    ensures
        found(r@) == pairing_apps(apps@, apps@.len() as int),
{
    let mut r: Vec<SignerAppReal> = Vec::new();
    proof {
        assert(found(r@) =~= pairing_apps(apps@, 0));
    }
    let n: usize = apps.len();
    let mut i: usize = 0;
    while i < n
        invariant
            i <= n == apps@.len(),
            found(r@) == pairing_apps(apps@, i as int),
        decreases n - i,
    {
        let name: Option<String> = get_app_name_from_info(&apps[i].1);
        let shown: Option<&str> = match &name {
            Some(name) => Some(name.as_str()),
            None => None,
        };
        let app: SignerAppReal = SignerAppReal::from_bundle_identifier_and_name(
            Some(apps[i].0.as_str()),
            shown,
        );
        let ghost id = apps@[i as int].0@;
        proof {
            assert(opt_str(shown) == app_name(apps@[i as int].1@));
            assert(app.app == known_app(apps@[i as int]));
        }
        let listed: bool = has_bundle(&r, &app.bundle_id);
        proof {
            assert(listed == lists_bundle(found(r@), id)) by {
                if listed {
                    let k = choose|k: int|
                        0 <= k < r@.len() && opt_text((#[trigger] r@[k]).bundle_id) == opt_text(
                            app.bundle_id,
                        );
                    assert(found(r@)[k].1 == Some(id));
                } else if lists_bundle(found(r@), id) {
                    let k = choose|k: int|
                        0 <= k < found(r@).len() && (#[trigger] found(r@)[k]).1 == Some(id);
                    assert(opt_text(r@[k].bundle_id) == opt_text(app.bundle_id));
                }
            }
        }
        if app.app.supports_pairing_file_alt() && !listed {
            let ghost before = r@;
            let ghost entry = (app.app, opt_text(app.bundle_id));
            r.push(app);
            proof {
                assert(found(r@) =~= found(before).push(entry));
            }
        }
        i += 1;
    }
    r
}

fn has_bundle(v: &Vec<SignerAppReal>, id: &Option<String>) -> (r: bool)
    ensures
        r == exists|k: int|
            0 <= k < v@.len() && opt_text((#[trigger] v@[k]).bundle_id) == opt_text(*id),
{
    let mut k: usize = 0;
    while k < v.len()
        invariant
            k <= v@.len(),
            forall|j: int| 0 <= j < k ==> opt_text((#[trigger] v@[j]).bundle_id) != opt_text(*id),
        decreases v@.len() - k,
    {
        if same_opt(&v[k].bundle_id, id) {
            proof {
                assert(opt_text(v@[k as int].bundle_id) == opt_text(*id));
            }
            return true;
        }
        k += 1;
    }
    false
}

/// Each app in the list takes a pairing file, and no two have the same bundle identifier.
pub proof fn law_supported_apps(apps: Seq<(String, PlistValue)>, n: int)
    requires
        0 <= n <= apps.len(),
    ensures
        ({
            let listed = pairing_apps(apps, n);
            &&& forall|i: int|
                0 <= i < listed.len() ==> (#[trigger] listed[i]).0.takes_pairing_file_later()
                    && listed[i].1 is Some
            &&& forall|i: int, j: int|
                0 <= i < j < listed.len() ==> (#[trigger] listed[i]).1 != (#[trigger] listed[j]).1
        }),
    decreases n,
{
    if n > 0 {
        law_supported_apps(apps, n - 1);
        let before = pairing_apps(apps, n - 1);
        let id = apps[n - 1].0@;
        if !lists_bundle(before, id) {
            assert forall|i: int| 0 <= i < before.len() implies (#[trigger] before[i]).1 != Some(
                id,
            ) by {}
        }
    }
}

/// Whether an app is among those on a device.
pub fn is_app_installed(bundle_ids: &Vec<String>, bundle_id: &str) -> (r: bool)
    ensures
        r == texts(bundle_ids@).contains(bundle_id@),
{
    let mut i: usize = 0;
    while i < bundle_ids.len()
        invariant
            i <= bundle_ids@.len(),
            forall|j: int| 0 <= j < i ==> texts(bundle_ids@)[j] != bundle_id@,
        decreases bundle_ids@.len() - i,
    {
        if same_text(bundle_ids[i].as_str(), bundle_id) {
            proof {
                assert(texts(bundle_ids@)[i as int] == bundle_id@);
            }
            return true;
        }
        i += 1;
    }
    false
}

/// A device is meant by its number or by its identifier, in any case.
pub open spec fn is_meant(device: UsbmuxdDevice, id: Seq<char>) -> bool {
    decimal(device.device_id as nat) == id || same_ignoring_case(device.udid@, id)
}

/// The device that a number or an identifier means: the first one in the list of the daemon.
pub fn get_device_for_id(devices: &Vec<UsbmuxdDevice>, device_id: &str) -> (r: Result<
    UsbmuxdDevice,
    PlumeError,
>)
    ensures
        match r {
            Ok(device) => exists|i: int|
                0 <= i < devices@.len() && (#[trigger] devices@[i]) == device && is_meant(
                    device,
                    device_id@,
                ) && forall|j: int| 0 <= j < i ==> !is_meant(#[trigger] devices@[j], device_id@),
            Err(e) => says(e, "Device ID "@ + device_id@ + " not found"@) && forall|i: int|
                0 <= i < devices@.len() ==> !is_meant(#[trigger] devices@[i], device_id@),
        },
{
    let mut i: usize = 0;
    while i < devices.len()
        invariant
            i <= devices@.len(),
            forall|j: int| 0 <= j < i ==> !is_meant(#[trigger] devices@[j], device_id@),
        decreases devices@.len() - i,
    {
        let number: String = decimal_text(devices[i].device_id as u64);
        if same_text(number.as_str(), device_id) || eq_ignore_case(
            devices[i].udid.as_str(),
            device_id,
        ) {
            let device: UsbmuxdDevice = devices[i].clone();
            proof {
                assert(devices@[i as int] == device);
            }
            return Ok(device);
        }
        i += 1;
    }
    Err(PlumeError::Other(join3("Device ID ", device_id, " not found")))
}

/// Every app that takes a pairing file is listed, and every listed one is installed.
pub proof fn law_all_supported_apps_are_listed(apps: Seq<(String, PlistValue)>, n: int)
    requires
        0 <= n <= apps.len(),
    ensures
        forall|i: int|
            0 <= i < n && known_app(#[trigger] apps[i]).takes_pairing_file_later() ==> lists_bundle(
                pairing_apps(apps, n),
                apps[i].0@,
            ),
        forall|j: int|
            0 <= j < pairing_apps(apps, n).len() ==> exists|i: int|
                0 <= i < n && (#[trigger] pairing_apps(apps, n)[j]).1 == Some(
                    (#[trigger] apps[i]).0@,
                ) && pairing_apps(apps, n)[j].0 == known_app(apps[i]),
    decreases n,
{
    if n > 0 {
        law_all_supported_apps_are_listed(apps, n - 1);
        let before = pairing_apps(apps, n - 1);
        let all = pairing_apps(apps, n);
        assert forall|id: Seq<char>| #[trigger] lists_bundle(before, id) implies lists_bundle(
            all,
            id,
        ) by {
            let j = choose|j: int| 0 <= j < before.len() && (#[trigger] before[j]).1 == Some(id);
            assert(all[j] == before[j]);
        }
        assert forall|i: int|
            0 <= i < n && known_app(
                #[trigger] apps[i],
            ).takes_pairing_file_later() implies lists_bundle(all, apps[i].0@) by {
            if i == n - 1 && !lists_bundle(before, apps[i].0@) {
                assert(all[before.len() as int].1 == Some(apps[i].0@));
            }
        }
        assert forall|j: int| 0 <= j < all.len() implies exists|i: int|
            0 <= i < n && (#[trigger] all[j]).1 == Some((#[trigger] apps[i]).0@) && all[j].0
                == known_app(apps[i]) by {
            if j < before.len() {
                assert(all[j] == before[j]);
                let i = choose|i: int|
                    0 <= i < n - 1 && before[j].1 == Some((#[trigger] apps[i]).0@) && before[j].0
                        == known_app(apps[i]);
                assert(all[j].1 == Some(apps[i].0@));
            } else {
                assert(all[j].1 == Some(apps[n - 1].0@));
            }
        }
    }
}

/// The name of an app is the one it shows, else that of its bundle, else that of its executable.
pub proof fn law_app_name_is_the_shown_one(info: PlistModel)
    ensures
        field_text(info, "CFBundleDisplayName"@) is Some ==> app_name(info) == field_text(
            info,
            "CFBundleDisplayName"@,
        ),
        app_name(info) is None <==> field_text(info, "CFBundleDisplayName"@) is None && field_text(
            info,
            "CFBundleName"@,
        ) is None && field_text(info, "CFBundleExecutable"@) is None,
        app_name(info) matches Some(name) ==> field_text(info, "CFBundleDisplayName"@) == Some(name)
            || field_text(info, "CFBundleName"@) == Some(name) || field_text(
            info,
            "CFBundleExecutable"@,
        ) == Some(name),
{
}

/// A device is meant by its number or by its identifier in any case of letters; by nothing else.
pub proof fn law_device_is_meant_by_number_or_identifier(device: UsbmuxdDevice, number: u32)
    ensures
        is_meant(device, device.udid@),
        is_meant(device, crate::text::lower(device.udid@)),
        is_meant(device, decimal(device.device_id as nat)),
        number != device.device_id && !same_ignoring_case(
            device.udid@,
            decimal(number as nat),
        ) ==> !is_meant(device, decimal(number as nat)),
{
    crate::text::law_lower_case(device.udid@);
    if decimal(device.device_id as nat) == decimal(number as nat) {
        crate::text::law_decimal_is_unique(device.device_id as nat, number as nat);
    }
}

} // verus!
