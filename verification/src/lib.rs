//! Discovery, pairing, provisioning and signing rules for Apple devices.
use vstd::prelude::*;

pub mod account;
pub mod anisette;
pub mod apps;
pub mod binary_dates;
pub mod browse;
pub mod checks;
pub mod commands;
pub mod crypto;
pub mod dedup;
pub mod device;
pub mod discovery;
pub mod dnssd;
pub mod error;
pub mod installation;
pub mod mdns;
pub mod options;
pub mod outside;
pub mod pairing;
pub mod pairing_screen;
pub mod pairing_view;
pub mod paths;
pub mod platform;
pub mod presence;
pub mod progress;
pub mod provision;
pub mod plist_dates;
pub mod plist_model;
pub mod plist_value;
pub mod records;
pub mod registration;
pub mod signer;
pub mod sort;
pub mod store;
pub mod table;
pub mod text;
pub mod tray;
pub mod tunnel;
pub mod tvos;
pub mod wide;
pub mod wildcard;
pub mod wireless;
pub mod xml_dates;

verus! {

} // verus!
