use vstd::prelude::*;

verus! {

/// Failure taxonomy of the library.
///
/// Every fallible operation reports a machine-distinguishable kind, so
/// batch reporting and retry policy can branch on it instead of parsing a
/// human message.
#[derive(Debug, Clone, PartialEq, Eq)]
pub enum Error {
    /// A filesystem read or write failed; carries the offending path.
    Io(String),
    /// A tagged artifact's header is malformed (no delimiter, or an
    /// identifier that is not plain text).
    Format,
    /// The requested compression level is outside the accepted range.
    InvalidLevel,
    /// A compressed stream is malformed and cannot be expanded.
    Corrupt,
    /// Authenticated encryption itself failed (catastrophic misuse, such
    /// as a plaintext over the cipher's size limit).
    EncryptFailed,
    /// The authentication tag did not verify: wrong key, wrong nonce, or
    /// tampered bytes. Never downgraded to a warning.
    AuthenticationFailed,
    /// The keeper has no record for the identifier embedded in an
    /// artifact; the file is unrecoverable without the keeper.
    RecordNotFound(String),
    /// A freshly generated identifier collided with a different record's;
    /// the pipeline fails closed instead of overwriting that record's key.
    IdCollision,
    /// A remote call failed in a way that may succeed on retry.
    RemoteTransient(String),
    /// The remote credential has expired; further calls in this run would
    /// fail identically.
    RemoteAuthExpired,
    /// A configuration value is invalid.
    Config(String),
}

impl Error {
    /// A short stable label for the error kind, for reports and logs.
    pub fn kind_name(&self) -> (r: &'static str)
        ensures
            r@.len() > 0,
            self is Io ==> r@ == "io"@,
            self is Format ==> r@ == "format"@,
            self is InvalidLevel ==> r@ == "invalid-level"@,
            self is Corrupt ==> r@ == "corrupt"@,
            self is EncryptFailed ==> r@ == "encrypt-failed"@,
            self is AuthenticationFailed ==> r@ == "authentication-failed"@,
            self is RecordNotFound ==> r@ == "record-not-found"@,
            self is IdCollision ==> r@ == "id-collision"@,
            self is RemoteTransient ==> r@ == "remote-transient"@,
            self is RemoteAuthExpired ==> r@ == "remote-auth-expired"@,
            self is Config ==> r@ == "config"@,
    {
        let r = match self {
            Error::Io(_) => "io",
            Error::Format => "format",
            Error::InvalidLevel => "invalid-level",
            Error::Corrupt => "corrupt",
            Error::EncryptFailed => "encrypt-failed",
            Error::AuthenticationFailed => "authentication-failed",
            Error::RecordNotFound(_) => "record-not-found",
            Error::IdCollision => "id-collision",
            Error::RemoteTransient(_) => "remote-transient",
            Error::RemoteAuthExpired => "remote-auth-expired",
            Error::Config(_) => "config",
        };
        proof {
            reveal_strlit("io");
            reveal_strlit("format");
            reveal_strlit("invalid-level");
            reveal_strlit("corrupt");
            reveal_strlit("encrypt-failed");
            reveal_strlit("authentication-failed");
            reveal_strlit("record-not-found");
            reveal_strlit("id-collision");
            reveal_strlit("remote-transient");
            reveal_strlit("remote-auth-expired");
            reveal_strlit("config");
        }
        r
    }
}

} // verus!
