//! The errors that the library's functions return.
use vstd::prelude::*;

verus! {

/// What can go wrong with provisioning profiles and sign-in replies.
#[derive(Debug)]
pub enum CoreError {
    ProvisioningEntitlementsUnknown,
    ProvisioningProfileInvalid(String),
    Plist(plist::Error),
    Certificate(x509_certificate::X509CertificateError),
    /// An error code of the sign-in service with its message.
    AuthSrpWithMessage(i64, String),
    Parse,
    DeveloperSessionRequestFailed,
}

/// What can go wrong with bundles, devices and pairings.
#[derive(Debug)]
pub enum PlumeError {
    BundleInfoPlistMissing,
    BundleFailedToCopy(String),
    TweakInvalidPath,
    TweakExtractionFailed(String),
    UnsupportedFileType(String),
    PackageInfoPlistMissing,
    Plist(plist::Error),
    Core(CoreError),
    Idevice(idevice::IdeviceError),
    Image(image::ImageError),
    PairingNotFound(String),
    PairingInvalidUdid(String),
    PairingNotAccepted,
    Other(String),
}

} // verus!
