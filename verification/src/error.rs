//! The error kinds a fetch or parse can surface.

use vstd::prelude::*;

verus! {

/// Everything that can abort a fetch: parse and validation failures,
/// transport failures carried in from the caller, and a cancelled input
/// prompt.
#[derive(Debug, PartialEq, Eq)]
pub enum Error {
    InvalidStatusCode(u32),
    ParseError,
    TooManyRedirects,
    InvalidURLScheme(String),
    NoHostname(String),
    UnknownMeta(String),
    UrlParseError,
    Utf8Error,
    TlsError,
    InvalidDnsName,
    IoError,
    StoreError(String),
    InputCancelled,
}

/// The verdicts of the trust-on-first-use certificate check.
#[derive(Debug, PartialEq, Eq)]
pub enum TofuError {
    NoCertificatesPresented,
    CertNotValidForName,
    Store(String),
}

} // verus!
