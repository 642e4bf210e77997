//! Error taxonomy of the licensing core.
//!
//! Every failure is surfaced to the caller as one of these variants; callers
//! that need plain text use [`LicenseError::message`].  The two credential
//! failure modes (unknown user, wrong password) are deliberately collapsed
//! into the single `InvalidCredentials` variant so that the user-facing error
//! does not reveal which part of the pair was wrong.

use vstd::prelude::*;

verus! {

/// One error per failure class of the activation and authentication
/// lifecycle.
#[derive(Debug, Clone, PartialEq, Eq)]
pub enum LicenseError {
    /// The platform reported no hardware network identifier.
    IdentityUnavailable,
    /// The platform call for the hardware identifier itself failed.
    IdentityResolutionError(String),
    /// The network round trip to the licensing authority failed.
    RemoteRequestError(String),
    /// The authority answered with a non-success status; carries the
    /// extracted or synthesized message text.
    RemoteRejected(String),
    /// The authority's response body does not match the expected shape.
    RemoteResponseMalformed(String),
    /// The persisted state could not be opened or read back consistently.
    StoreOpenError(String),
    /// A write to the persisted state failed; the transaction rolled back.
    StoreWriteError(String),
    /// The authority granted a reactivation but no local record matched the
    /// `(activation_code, device_identifier)` pair.
    ReactivationNotReconciled,
    /// Username/password pair not accepted.
    InvalidCredentials,
}

impl LicenseError {
    /// Human-readable text of the error, one line per failure.
    pub fn message(&self) -> (r: String)
        ensures
            self is IdentityUnavailable ==> r@ == "Could not get MAC address"@,
            self matches LicenseError::IdentityResolutionError(m) ==> r@ == m@,
            self matches LicenseError::RemoteRequestError(m) ==> r@ == "API request failed: "@ + m@,
            self matches LicenseError::RemoteRejected(m) ==> r@ == m@,
            self matches LicenseError::RemoteResponseMalformed(m) ==> (r@ == "Failed to parse API response: "@
                + m@),
            self matches LicenseError::StoreOpenError(m) ==> r@ == m@,
            self matches LicenseError::StoreWriteError(m) ==> r@ == m@,
            self is ReactivationNotReconciled ==> (r@
                == "Reactivation succeeded on backend, but failed to update local record."@),
            self is InvalidCredentials ==> r@ == "Invalid username or password"@,
    {
        match self {
            LicenseError::IdentityUnavailable => "Could not get MAC address".to_owned(),
            LicenseError::IdentityResolutionError(m) => m.clone(),
            LicenseError::RemoteRequestError(m) => "API request failed: ".to_owned().concat(
                m.as_str(),
            ),
            LicenseError::RemoteRejected(m) => m.clone(),
            LicenseError::RemoteResponseMalformed(m) => "Failed to parse API response: ".to_owned()
                .concat(m.as_str()),
            LicenseError::StoreOpenError(m) => m.clone(),
            LicenseError::StoreWriteError(m) => m.clone(),
            LicenseError::ReactivationNotReconciled => {
                "Reactivation succeeded on backend, but failed to update local record.".to_owned()
            },
            LicenseError::InvalidCredentials => "Invalid username or password".to_owned(),
        }
    }
}

} // verus!
