//! Generic errors of the library, carrying the failure class that caused them.

use vstd::prelude::*;

verus! {

/// The failure classes of the credential subsystem.
///
/// Every failure is terminal for the current validation attempt: the caller
/// must treat any error as "unauthenticated". The class is kept so that a
/// caller can still distinguish an operator error (`NotConfigured`) from a
/// security event (`AuthenticationFailed`).
#[derive(Clone, Copy, Debug, PartialEq, Eq, Structural)]
pub enum ErrorKind {
    /// A credential operation was attempted before the configuration was set.
    NotConfigured,
    /// Malformed base64, or an envelope shorter than the cipher nonce.
    DecodeError,
    /// The authentication tag did not verify: wrong key or tampered data.
    AuthenticationFailed,
    /// The cipher refused the plaintext (its length exceeds the cipher's limit).
    EncryptionFailed,
    /// The decrypted text is not a token record in an accepted JSON spelling.
    EncodingError,
    /// The inbound transport carried no access or no refresh credential.
    MissingCredential,
    /// The access and refresh credentials name different subjects.
    OwnerMismatch,
    /// The refresh credential is stamped later than the access credential.
    RefreshReused,
    /// The refresh credential is older than the refresh lifetime.
    RefreshExpired,
}

/// The standard message of a failure class: what [`Error::from`] stores.
pub open spec fn standard_message(kind: ErrorKind) -> Seq<char> {
    match kind {
        ErrorKind::NotConfigured => "Token system not configured"@,
        ErrorKind::DecodeError => "Malformed envelope"@,
        ErrorKind::AuthenticationFailed => "Authentication failed"@,
        ErrorKind::EncryptionFailed => "Encryption failed"@,
        ErrorKind::EncodingError => "Malformed token record"@,
        ErrorKind::MissingCredential => "Missing credential"@,
        ErrorKind::OwnerMismatch => "Token owner mismatched"@,
        ErrorKind::RefreshReused => "Refresh token reused"@,
        ErrorKind::RefreshExpired => "Refresh token expired"@,
    }
}

/// A struct that represents generic errors
#[derive(Debug)]
pub struct Error {
    kind: ErrorKind,
    message: String,
}

impl Error {
    /// The failure class this error carries.
    pub closed spec fn spec_kind(&self) -> ErrorKind {
        self.kind
    }

    /// The message this error carries.
    pub closed spec fn spec_message(&self) -> Seq<char> {
        self.message@
    }

    /// Create new error from a failure class and a message string
    pub fn new(kind: ErrorKind, message: &str) -> (r: Self)
        ensures
            r.spec_kind() == kind,
            r.spec_message() == message@,
    {
        Error { kind, message: message.to_owned() }
    }

    /// Create new error from a failure class alone, with its standard message
    pub fn from(kind: ErrorKind) -> (r: Self)
        ensures
            r.spec_kind() == kind,
            r.spec_message() == standard_message(kind),
    {
        match kind {
            ErrorKind::NotConfigured => Error::new(kind, "Token system not configured"),
            ErrorKind::DecodeError => Error::new(kind, "Malformed envelope"),
            ErrorKind::AuthenticationFailed => Error::new(kind, "Authentication failed"),
            ErrorKind::EncryptionFailed => Error::new(kind, "Encryption failed"),
            ErrorKind::EncodingError => Error::new(kind, "Malformed token record"),
            ErrorKind::MissingCredential => Error::new(kind, "Missing credential"),
            ErrorKind::OwnerMismatch => Error::new(kind, "Token owner mismatched"),
            ErrorKind::RefreshReused => Error::new(kind, "Refresh token reused"),
            ErrorKind::RefreshExpired => Error::new(kind, "Refresh token expired"),
        }
    }

    /// Get the failure class
    pub fn kind(&self) -> (k: ErrorKind)
        ensures
            k == self.spec_kind(),
    {
        self.kind
    }

    /// Get the message
    pub fn message(&self) -> (m: &str)
        ensures
            m@ == self.spec_message(),
    {
        self.message.as_str()
    }
}

} // verus!
