//! What can go wrong.

use crate::text::join3;
use vstd::prelude::*;

verus! {

/// Why an operation was refused or failed.
#[derive(Debug, Clone, PartialEq, Eq)]
pub enum Error {
    /// The bytes are not a vault, or not one in good order.
    Format(String),
    /// A version or a suite that this build does not know.
    Unsupported { what: String, value: String },
    /// A size or a count is above what is accepted.
    LimitExceeded(String),
    /// A key, a signature or a wrapping is malformed.
    Crypto(String),
    /// Two records that must agree do not.
    Integrity(String),
    /// A ciphertext does not open under the key offered.
    AuthenticationFailed,
    /// The vault holds no key at the moment.
    Locked,
    /// Something this vault needs is not available.
    NotImplemented(String),
    /// The request itself is refused.
    Other(String),
    /// The storage underneath failed.
    Io(String),
}

/// An error, with its texts as sequences of characters.
pub enum ErrorView {
    Format(Seq<char>),
    Unsupported { what: Seq<char>, value: Seq<char> },
    LimitExceeded(Seq<char>),
    Crypto(Seq<char>),
    Integrity(Seq<char>),
    AuthenticationFailed,
    Locked,
    NotImplemented(Seq<char>),
    Other(Seq<char>),
    Io(Seq<char>),
}

impl View for Error {
    type V = ErrorView;

    open spec fn view(&self) -> ErrorView {
        match self {
            Error::Format(m) => ErrorView::Format(m@),
            Error::Unsupported { what, value } => ErrorView::Unsupported {
                what: what@,
                value: value@,
            },
            Error::LimitExceeded(m) => ErrorView::LimitExceeded(m@),
            Error::Crypto(m) => ErrorView::Crypto(m@),
            Error::Integrity(m) => ErrorView::Integrity(m@),
            Error::AuthenticationFailed => ErrorView::AuthenticationFailed,
            Error::Locked => ErrorView::Locked,
            Error::NotImplemented(m) => ErrorView::NotImplemented(m@),
            Error::Other(m) => ErrorView::Other(m@),
            Error::Io(m) => ErrorView::Io(m@),
        }
    }
}

impl ErrorView {
    /// The sentence shown for an error.
    pub open spec fn text(self) -> Seq<char> {
        match self {
            ErrorView::Format(m) => m,
            ErrorView::Unsupported { what, value } => what + " is not supported: "@ + value,
            ErrorView::LimitExceeded(m) => m,
            ErrorView::Crypto(m) => m,
            ErrorView::Integrity(m) => m,
            ErrorView::AuthenticationFailed => "authentication failed"@,
            ErrorView::Locked => "the vault is locked"@,
            ErrorView::NotImplemented(m) => m,
            ErrorView::Other(m) => m,
            ErrorView::Io(m) => m,
        }
    }
}

impl Error {
    /// The sentence shown for this error.
    pub fn message(&self) -> (r: String)
        ensures
            r@ == self@.text(),
    {
        match self {
            Error::Format(m) => m.clone(),
            Error::Unsupported { what, value } => join3(
                what.as_str(),
                " is not supported: ",
                value.as_str(),
            ),
            Error::LimitExceeded(m) => m.clone(),
            Error::Crypto(m) => m.clone(),
            Error::Integrity(m) => m.clone(),
            Error::AuthenticationFailed => "authentication failed".to_owned(),
            Error::Locked => "the vault is locked".to_owned(),
            Error::NotImplemented(m) => m.clone(),
            Error::Other(m) => m.clone(),
            Error::Io(m) => m.clone(),
        }
    }
}

/// An error that carries a sentence is shown as that sentence, whatever kind it
/// is; one that names what is not supported shows both what and which.
pub proof fn law_error_shows_what_it_carries(m: Seq<char>, what: Seq<char>, value: Seq<char>)
    ensures
        ErrorView::Format(m).text() == m,
        ErrorView::LimitExceeded(m).text() == m,
        ErrorView::Crypto(m).text() == m,
        ErrorView::Integrity(m).text() == m,
        ErrorView::NotImplemented(m).text() == m,
        ErrorView::Other(m).text() == m,
        ErrorView::Io(m).text() == m,
        (ErrorView::Unsupported { what, value }).text() == what + " is not supported: "@ + value,
        ErrorView::AuthenticationFailed.text() == "authentication failed"@,
        ErrorView::Locked.text() == "the vault is locked"@,
{
}

} // verus!
