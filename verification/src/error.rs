//! What can go wrong when a name is resolved.
use vstd::prelude::*;
use vstd::string::StringExecFns;
use crate::text::{debug_text, quoted};

verus! {

/// Why a name did not resolve.
#[derive(Debug, Clone, PartialEq, Eq)]
pub enum Error {
    /// The name cannot be resolved as it is written: the name, and what is
    /// wrong with it. Asking again will not help.
    InvalidName(String, &'static str),
    /// The resolver could not do its work this time: the cause, in words.
    /// It is safe to ask again in a moment.
    TemporaryError(String),
    /// The resolver did its work and there is no such name.
    NameNotFound,
    /// The resolver finds hosts only, and the name carries no port to
    /// complete the address with.
    NoDefaultPort,
}

/// The kind of I/O error that stands for an [`Error`].
#[derive(Debug, Clone, Copy, PartialEq, Eq, Structural)]
pub enum IoErrorKind {
    /// The input cannot be used.
    InvalidInput,
    /// Nothing more specific.
    Other,
    /// What was asked for is not there.
    NotFound,
}

/// The words for an invalid name, given the name as it is shown and what is
/// wrong with it.
pub open spec fn invalid_name_message(shown: Seq<char>, why: Seq<char>) -> Seq<char> {
    "name "@ + shown + " is invalid: "@ + why
}

/// The words for an invalid name, given the name as it is shown and what is
/// wrong with it.
pub fn invalid_name_text(shown: &str, why: &str) -> (r: String)
    ensures
        r@ == invalid_name_message(shown@, why@),
{
    let text = "name ".to_owned();
    let text = text.concat(shown);
    let text = text.concat(" is invalid: ");
    text.concat(why)
}

impl Error {
    /// The kind of I/O error that stands for this error: a bad name is bad
    /// input, a name that is not there and a port that is missing are not
    /// found, and a failure of the moment is nothing more specific.
    pub open spec fn spec_io_kind(&self) -> IoErrorKind {
        match self {
            Error::InvalidName(_, _) => IoErrorKind::InvalidInput,
            Error::TemporaryError(_) => IoErrorKind::Other,
            Error::NameNotFound => IoErrorKind::NotFound,
            Error::NoDefaultPort => IoErrorKind::NotFound,
        }
    }

    /// The kind of I/O error that stands for this error.
    #[verifier::when_used_as_spec(spec_io_kind)]
    pub fn io_kind(&self) -> (r: IoErrorKind)
        ensures
            r == self.spec_io_kind(),
    {
        match self {
            Error::InvalidName(_, _) => IoErrorKind::InvalidInput,
            Error::TemporaryError(_) => IoErrorKind::Other,
            Error::NameNotFound => IoErrorKind::NotFound,
            Error::NoDefaultPort => IoErrorKind::NotFound,
        }
    }

    /// The error in a few words, whatever the details.
    pub open spec fn summary(&self) -> Seq<char> {
        match self {
            Error::InvalidName(_, _) => "name that you are trying to resolve is invalid"@,
            Error::TemporaryError(_) => "temporary name resolution error"@,
            Error::NameNotFound => "name not found"@,
            Error::NoDefaultPort =>
                "the resolver can only resolve hostname to an IP, address, so port must be specified to get full address"@,
        }
    }

    /// The error in a few words, whatever the details.
    pub fn description(&self) -> (r: &'static str)
        ensures
            r@ == self.summary(),
    {
        match self {
            Error::InvalidName(_, _) => "name that you are trying to resolve is invalid",
            Error::TemporaryError(_) => "temporary name resolution error",
            Error::NameNotFound => "name not found",
            Error::NoDefaultPort =>
                "the resolver can only resolve hostname to an IP, address, so port must be specified to get full address",
        }
    }

    /// The error in words, with its details. The name is written as `{:?}`
    /// writes a string: between double quotes, and escaped.
    pub open spec fn message(&self) -> Seq<char> {
        match self {
            Error::InvalidName(name, why) => invalid_name_message(debug_text(name@), why@),
            Error::TemporaryError(cause) => "temporary name resolution error: "@ + cause@,
            _ => self.summary(),
        }
    }

    /// The error in words, with its details.
    pub fn to_string(&self) -> (r: String)
        ensures
            r@ == self.message(),
    {
        match self {
            Error::InvalidName(name, why) => {
                let shown = quoted(name.as_str());
                invalid_name_text(shown.as_str(), why)
            },
            Error::TemporaryError(cause) => {
                let text = "temporary name resolution error: ".to_owned();
                text.concat(cause.as_str())
            },
            _ => self.description().to_owned(),
        }
    }
}

} // verus!
