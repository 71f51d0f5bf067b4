//! The error type shared by the archive reader, the archive writer and the
//! document framing.

use vstd::prelude::*;

verus! {

/// Lets a `std::io::Error` travel through verified code as an opaque value.
#[verifier::external_type_specification]
#[verifier::external_body]
pub struct ExIoError(std::io::Error);

/// What went wrong, without the payload.
#[derive(Clone, Copy, Debug, PartialEq, Eq, Structural)]
pub enum ErrorKind {
    /// The stream ended inside a field or inside a member body.
    Truncated,
    /// A field is structurally malformed, such as a name that is not UTF-16.
    InvalidData,
    /// A member name has more UTF-16 code units than the length field can hold.
    NameTooLong,
    /// A member body has more bytes than the length field can hold.
    BodyTooLarge,
    /// The operation is not available.
    Unsupported,
    /// The compression layer reported a failure of its own.
    Io,
}

/// An error of the archive codec. Every error is fatal to the operation that met it.
#[derive(Debug)]
pub enum Error {
    /// The stream ended inside a field or inside a member body.
    Truncated,
    /// A field is structurally malformed; the payload says which.
    InvalidData(String),
    /// A member name has more UTF-16 code units than the length field can hold.
    NameTooLong,
    /// A member body has more bytes than the length field can hold.
    BodyTooLarge,
    /// The operation is not available.
    Unsupported,
    /// A failure of the compression layer, handed on as it came.
    Io(std::io::Error),
}

/// `std::io::Error::to_string`: the text that the error displays. Nothing is
/// claimed of the text.
#[verifier::external_body]
fn io_error_text(e: &std::io::Error) -> String {
    e.to_string()
}

impl Error {
    /// The kind of this error.
    pub open spec fn spec_kind(&self) -> ErrorKind {
        match self {
            Error::Truncated => ErrorKind::Truncated,
            Error::InvalidData(_) => ErrorKind::InvalidData,
            Error::NameTooLong => ErrorKind::NameTooLong,
            Error::BodyTooLarge => ErrorKind::BodyTooLarge,
            Error::Unsupported => ErrorKind::Unsupported,
            Error::Io(_) => ErrorKind::Io,
        }
    }

    /// The kind of this error.
    #[verifier::when_used_as_spec(spec_kind)]
    pub fn kind(&self) -> (k: ErrorKind)
        ensures
            k == self.spec_kind(),
    {
        match self {
            Error::Truncated => ErrorKind::Truncated,
            Error::InvalidData(_) => ErrorKind::InvalidData,
            Error::NameTooLong => ErrorKind::NameTooLong,
            Error::BodyTooLarge => ErrorKind::BodyTooLarge,
            Error::Unsupported => ErrorKind::Unsupported,
            Error::Io(_) => ErrorKind::Io,
        }
    }

    /// A text for people. An `InvalidData` error answers with its payload, an
    /// `Io` error with the text of the underlying error, every other kind
    /// with a fixed text.
    pub fn message(&self) -> (text: String)
        ensures
            match self {
                Error::Truncated => text@ == "EOF within archive member"@,
                Error::InvalidData(m) => text@ == m@,
                Error::NameTooLong => text@ == "Member name too long"@,
                Error::BodyTooLarge => text@ == "Member too large"@,
                Error::Unsupported => text@ == "Unimplemented"@,
                Error::Io(_) => true,
            },
    {
        match self {
            Error::Truncated => "EOF within archive member".to_owned(),
            Error::InvalidData(m) => m.clone(),
            Error::NameTooLong => "Member name too long".to_owned(),
            Error::BodyTooLarge => "Member too large".to_owned(),
            Error::Unsupported => "Unimplemented".to_owned(),
            Error::Io(e) => io_error_text(e),
        }
    }
}

/// An `InvalidData` error that carries `s` as its message.
pub fn invalid_data(s: &str) -> (e: Error)
    ensures
        e matches Error::InvalidData(m) && m@ == s@,
{
    Error::InvalidData(s.to_owned())
}

} // verus!
