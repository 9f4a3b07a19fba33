//! The protocol model: response status codes, response triples, and the
//! tagged line variants of a parsed `text/gemini` document.

use vstd::prelude::*;

verus! {

/// The closed set of Gemini response statuses, keyed by two-digit codes.
#[derive(Clone, Copy, Debug, PartialEq, Eq, Structural)]
pub enum Status {
    Input,
    SensitiveInput,
    Success,
    RedirectTemporary,
    RedirectPermanent,
    TemporaryFailure,
    ServerUnavailable,
    CGIError,
    ProxyError,
    SlowDown,
    PermanentFailure,
    NotFound,
    Gone,
    ProxyRequestRefused,
    BadRequest,
    ClientCertificateRequired,
    CertificateNotAuthorized,
    CertificateNotValid,
}

/// The same enumeration under the name the client-side modules use.
pub type ResponseStatus = Status;

/// The status a two-digit code denotes, or `None` outside the closed set.
pub open spec fn status_of_code(v: u32) -> Option<Status> {
    if v == 10 {
        Some(Status::Input)
    } else if v == 11 {
        Some(Status::SensitiveInput)
    } else if v == 20 {
        Some(Status::Success)
    } else if v == 30 {
        Some(Status::RedirectTemporary)
    } else if v == 31 {
        Some(Status::RedirectPermanent)
    } else if v == 40 {
        Some(Status::TemporaryFailure)
    } else if v == 41 {
        Some(Status::ServerUnavailable)
    } else if v == 42 {
        Some(Status::CGIError)
    } else if v == 43 {
        Some(Status::ProxyError)
    } else if v == 44 {
        Some(Status::SlowDown)
    } else if v == 50 {
        Some(Status::PermanentFailure)
    } else if v == 51 {
        Some(Status::NotFound)
    } else if v == 52 {
        Some(Status::Gone)
    } else if v == 53 {
        Some(Status::ProxyRequestRefused)
    } else if v == 59 {
        Some(Status::BadRequest)
    } else if v == 60 {
        Some(Status::ClientCertificateRequired)
    } else if v == 61 {
        Some(Status::CertificateNotAuthorized)
    } else if v == 62 {
        Some(Status::CertificateNotValid)
    } else {
        None
    }
}

impl Status {
    /// Construction from a raw integer; fails outside the eighteen-value set.
    pub fn try_from(v: u32) -> (r: Result<Status, crate::error::Error>)
        ensures
            match r {
                Ok(s) => status_of_code(v) == Some(s),
                Err(e) => status_of_code(v) is None && e == crate::error::Error::InvalidStatusCode(
                    v,
                ),
            },
    {
        match v {
            10 => Ok(Status::Input),
            11 => Ok(Status::SensitiveInput),
            20 => Ok(Status::Success),
            30 => Ok(Status::RedirectTemporary),
            31 => Ok(Status::RedirectPermanent),
            40 => Ok(Status::TemporaryFailure),
            41 => Ok(Status::ServerUnavailable),
            42 => Ok(Status::CGIError),
            43 => Ok(Status::ProxyError),
            44 => Ok(Status::SlowDown),
            50 => Ok(Status::PermanentFailure),
            51 => Ok(Status::NotFound),
            52 => Ok(Status::Gone),
            53 => Ok(Status::ProxyRequestRefused),
            59 => Ok(Status::BadRequest),
            60 => Ok(Status::ClientCertificateRequired),
            61 => Ok(Status::CertificateNotAuthorized),
            62 => Ok(Status::CertificateNotValid),
            _ => Err(crate::error::Error::InvalidStatusCode(v)),
        }
    }
}

/// A parsed response: the status, the header's meta string, and the body
/// bytes that follow the header.
#[derive(Debug, PartialEq, Eq)]
pub struct Response {
    pub status: Status,
    pub meta: String,
    pub body: Vec<u8>,
}

/// One line (or preformatted block) of a `text/gemini` document.
#[derive(Debug, PartialEq, Eq)]
pub enum Line {
    Text(String),
    BareLink(String),
    NamedLink { url: String, name: String },
    Pre { alt: Option<String>, text: String },
    H1(String),
    H2(String),
    H3(String),
    List(String),
    Quote(String),
}

/// The mathematical shape of a `Line`: the same variants over character
/// sequences.
pub enum LineView {
    Text(Seq<char>),
    BareLink(Seq<char>),
    NamedLink { url: Seq<char>, name: Seq<char> },
    Pre { alt: Option<Seq<char>>, text: Seq<char> },
    H1(Seq<char>),
    H2(Seq<char>),
    H3(Seq<char>),
    List(Seq<char>),
    Quote(Seq<char>),
}

impl View for Line {
    type V = LineView;

    open spec fn view(&self) -> LineView {
        match self {
            Line::Text(s) => LineView::Text(s@),
            Line::BareLink(s) => LineView::BareLink(s@),
            Line::NamedLink { url, name } => LineView::NamedLink { url: url@, name: name@ },
            Line::Pre { alt, text } => LineView::Pre {
                alt: match alt {
                    Some(a) => Some(a@),
                    None => None,
                },
                text: text@,
            },
            Line::H1(s) => LineView::H1(s@),
            Line::H2(s) => LineView::H2(s@),
            Line::H3(s) => LineView::H3(s@),
            Line::List(s) => LineView::List(s@),
            Line::Quote(s) => LineView::Quote(s@),
        }
    }
}

impl Line {
    /// An owned copy whose view equals this line's view.
    pub fn duplicate(&self) -> (r: Line)
        ensures
            r@ == self@,
    {
        match self {
            Line::Text(s) => Line::Text(s.clone()),
            Line::BareLink(s) => Line::BareLink(s.clone()),
            Line::NamedLink { url, name } => Line::NamedLink {
                url: url.clone(),
                name: name.clone(),
            },
            Line::Pre { alt, text } => Line::Pre {
                alt: match alt {
                    Some(a) => Some(a.clone()),
                    None => None,
                },
                text: text.clone(),
            },
            Line::H1(s) => Line::H1(s.clone()),
            Line::H2(s) => Line::H2(s.clone()),
            Line::H3(s) => Line::H3(s.clone()),
            Line::List(s) => Line::List(s.clone()),
            Line::Quote(s) => Line::Quote(s.clone()),
        }
    }
}

/// An ordered sequence of parsed or wrapped lines.
#[derive(Debug, PartialEq, Eq)]
pub struct Document_<T>(pub Vec<T>);

/// The as-parsed document.
pub type Document = Document_<Line>;

/// A screen-wrapped document: each entry pairs a (shortened) line with a
/// flag that is true exactly on the first screen line of its source block.
pub type WrappedDocument = Document_<(Line, bool)>;

impl<T: View> View for Document_<T> {
    type V = Seq<T::V>;

    open spec fn view(&self) -> Seq<T::V> {
        Seq::new(self.0@.len(), |i: int| self.0@[i]@)
    }
}

impl<T> Document_<T> {
    pub fn new(t: Vec<T>) -> (r: Self)
        ensures
            r.0 == t,
    {
        Self(t)
    }
}

} // verus!
