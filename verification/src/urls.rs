//! The URL model: the components the client's logic reads, parsed and
//! resolved by the `url` crate behind trusted wrappers.
//!
//! A `UrlParts` carries the parsed `url::Url` (opaque to verification)
//! together with the plain components the logic dispatches on; contracts
//! speak of those components through the `UrlModel` view.

use vstd::prelude::*;

verus! {

/// The components of an absolute URL that the fetch logic reads.
pub struct UrlModel {
    pub scheme: Seq<char>,
    pub host: Option<Seq<char>>,
    pub port: Option<u16>,
    pub serialized: Seq<char>,
}

/// What parsing a string as an absolute URL can yield: a parse, a
/// relative-reference failure (recoverable against a base), or any other
/// failure.
pub enum UrlOutcomeModel {
    Parsed(UrlModel),
    Relative,
    Invalid,
}

/// The outcome of `url::Url::parse` on the given characters.
pub uninterp spec fn url_parse(s: Seq<char>) -> UrlOutcomeModel;

/// The outcome of resolving the reference `rel` against the absolute URL
/// whose serialization is `base`.
pub uninterp spec fn url_join(base: Seq<char>, rel: Seq<char>) -> Option<UrlModel>;

/// The URL `base` with its query set to the percent-encoding of `q`.
pub uninterp spec fn url_with_query(base: Seq<char>, q: Seq<char>) -> UrlModel;

/// An absolute URL: the parsed value and its plain components.
pub struct UrlParts {
    scheme: String,
    host: Option<String>,
    port: Option<u16>,
    serialized: String,
}

impl View for UrlParts {
    type V = UrlModel;

    closed spec fn view(&self) -> UrlModel {
        UrlModel {
            scheme: self.scheme@,
            host: match self.host {
                Some(h) => Some(h@),
                None => None,
            },
            port: self.port,
            serialized: self.serialized@,
        }
    }
}

/// What parsing a string can yield, carrying the parsed URL.
pub enum UrlParseOutcome {
    Parsed(UrlParts),
    Relative,
    Invalid,
}

impl View for UrlParseOutcome {
    type V = UrlOutcomeModel;

    open spec fn view(&self) -> UrlOutcomeModel {
        match self {
            UrlParseOutcome::Parsed(p) => UrlOutcomeModel::Parsed(p@),
            UrlParseOutcome::Relative => UrlOutcomeModel::Relative,
            UrlParseOutcome::Invalid => UrlOutcomeModel::Invalid,
        }
    }
}

/// Relies on url::Url::parse and the accessors scheme, host_str, port and
/// as_str: the outcome is a function of the input string alone, a
/// relative reference is reported apart from other failures, and parsing
/// a parsed URL's own serialization yields that URL again.
#[verifier::external_body]
pub fn parse_url(s: &str) -> (r: UrlParseOutcome)
    ensures
        r@ == url_parse(s@),
        match r {
            UrlParseOutcome::Parsed(p) => url_parse(p@.serialized) == UrlOutcomeModel::Parsed(p@),
            _ => true,
        },
{
    match url::Url::parse(s) {
        Ok(u) => UrlParseOutcome::Parsed(UrlParts {
            scheme: u.scheme().to_string(),
            host: u.host_str().map(|h| h.to_string()),
            port: u.port(),
            serialized: u.as_str().to_string(),
        }),
        Err(url::ParseError::RelativeUrlWithoutBase) => UrlParseOutcome::Relative,
        Err(_) => UrlParseOutcome::Invalid,
    }
}

/// Relies on url::Url::parse (rebuilding the base from its
/// serialization) and url::Url::join: resolving a reference against this
/// absolute base.  The outcome is a function of the base's serialization
/// and the reference alone, and the result reparses to itself.
#[verifier::external_body]
pub fn join_url(base: &UrlParts, rel: &str) -> (r: Option<UrlParts>)
    ensures
        match r {
            Some(p) => url_join(base@.serialized, rel@) == Some(p@) && url_parse(p@.serialized)
                == UrlOutcomeModel::Parsed(p@),
            None => url_join(base@.serialized, rel@) is None,
        },
{
    let parsed = match url::Url::parse(&base.serialized) {
        Ok(u) => u,
        Err(_) => return None,
    };
    match parsed.join(rel) {
        Ok(u) => Some(UrlParts {
            scheme: u.scheme().to_string(),
            host: u.host_str().map(|h| h.to_string()),
            port: u.port(),
            serialized: u.as_str().to_string(),
        }),
        Err(_) => None,
    }
}

/// Relies on url::Url::parse (rebuilding the base from its
/// serialization) and url::Url::set_query: the query becomes the input
/// with the characters a query cannot carry percent-encoded.  The result
/// is a function of the base's serialization and the input alone, and
/// reparses to itself.
#[verifier::external_body]
pub fn set_url_query(base: &UrlParts, input: &str) -> (r: UrlParts)
    ensures
        r@ == url_with_query(base@.serialized, input@),
        url_parse(r@.serialized) == UrlOutcomeModel::Parsed(r@),
{
    let mut u = match url::Url::parse(&base.serialized) {
        // Unreachable: every UrlParts carries the serialization of a URL
        // the url crate produced, and that reparses.
        Err(_) => return base.duplicate(),
        Ok(u) => u,
    };
    u.set_query(Some(input));
    UrlParts {
        scheme: u.scheme().to_string(),
        host: u.host_str().map(|h| h.to_string()),
        port: u.port(),
        serialized: u.as_str().to_string(),
    }
}

impl UrlParts {
    /// The URL's scheme, without the separator.
    pub fn scheme(&self) -> (r: &String)
        ensures
            r@ == self@.scheme,
    {
        &self.scheme
    }

    /// The host, if the URL names one.
    pub fn host_str(&self) -> (r: Option<&String>)
        ensures
            match r {
                Some(h) => self@.host == Some(h@),
                None => self@.host is None,
            },
    {
        match &self.host {
            Some(h) => Some(h),
            None => None,
        }
    }

    /// The explicit port, if the URL names one.
    pub fn port(&self) -> (r: Option<u16>)
        ensures
            r == self@.port,
    {
        self.port
    }

    /// The canonical serialization.
    pub fn as_str(&self) -> (r: &str)
        ensures
            r@ == self@.serialized,
    {
        self.serialized.as_str()
    }

    /// An owned copy with the same components.
    pub fn duplicate(&self) -> (r: UrlParts)
        ensures
            r@ == self@,
    {
        UrlParts {
            scheme: self.scheme.clone(),
            host: match &self.host {
                Some(h) => Some(h.clone()),
                None => None,
            },
            port: self.port,
            serialized: self.serialized.clone(),
        }
    }
}

} // verus!
