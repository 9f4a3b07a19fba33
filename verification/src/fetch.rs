//! The fetch engine's decisions: request planning, status-class dispatch,
//! the bounded redirect chain, and the input-prompt loop.
//!
//! The engine is a state machine.  The caller opens connections, speaks
//! TLS and reads bytes; this module decides, from the current URL, the
//! redirect depth and each response, what to do next: issue a request,
//! ask the user for input, deliver a document, or fail.

use vstd::prelude::*;

use crate::error::Error;
use crate::parser::{parse_response, spec_parse_header, utf8_string};
use crate::protocol::{Document, Document_, Line, LineView, Status};
use crate::text::{starts_with_str, str_eq};
use crate::urls::{
    join_url, parse_url, set_url_query, url_join, url_parse, url_with_query, UrlModel,
    UrlOutcomeModel, UrlParseOutcome, UrlParts,
};
use vstd::utf8::{decode_utf8, valid_utf8};

verus! {

/// The collaborators a fetch needs from its caller: an input prompt and
/// somewhere to show documents and non-success headers.
pub trait Fetch {
    fn input(&mut self, prompt: &str, is_sensitive: bool) -> Result<String, Error>;

    fn display(&mut self, doc: &Document) -> Result<(), Error>;

    fn header(&mut self, status: &Status, meta: &str) -> Result<(), Error>;
}

/// A fetched page, self-contained: the parsed header, the raw body
/// bytes, and — for successful text pages — the parsed document.
pub struct OwnedDocument {
    pub status: Status,
    pub meta: String,
    pub body: Vec<u8>,
    pub doc: Option<Document>,
}

/// What the engine asks of its caller next.
pub enum FetchStep {
    Request { host: String, port: u16, request: String },
    NeedInput { prompt: String, sensitive: bool },
    Done(OwnedDocument),
    Failed(Error),
}

pub open spec fn gemini_scheme() -> Seq<char> {
    seq!['g', 'e', 'm', 'i', 'n', 'i']
}

pub open spec fn crlf() -> Seq<char> {
    seq!['\r', '\n']
}

pub open spec fn text_gemini_mime() -> Seq<char> {
    seq!['t', 'e', 'x', 't', '/', 'g', 'e', 'm', 'i', 'n', 'i']
}

pub open spec fn text_mime() -> Seq<char> {
    seq!['t', 'e', 'x', 't', '/']
}

pub open spec fn starts_with(s: Seq<char>, p: Seq<char>) -> bool {
    s.len() >= p.len() && s.subrange(0, p.len() as int) == p
}

/// What planning a request for URL `u` yields: the default port is 1965,
/// and the request line is the URL's serialization followed by CRLF.
pub open spec fn plan_matches(u: UrlModel, r: FetchStep) -> bool {
    if u.scheme != gemini_scheme() {
        match r {
            FetchStep::Failed(e) => match e {
                Error::InvalidURLScheme(s) => s@ == u.scheme,
                _ => false,
            },
            _ => false,
        }
    } else {
        match u.host {
            None => match r {
                FetchStep::Failed(e) => match e {
                    Error::NoHostname(s) => s@ == u.serialized,
                    _ => false,
                },
                _ => false,
            },
            Some(h) => match r {
                FetchStep::Request { host, port, request } => host@ == h && port == (
                match u.port {
                    Some(p) => p,
                    None => 1965u16,
                }) && request@ == u.serialized + crlf(),
                _ => false,
            },
        }
    }
}

/// What dispatching a successful response yields, by its meta type.
pub open spec fn success_rel(meta: Seq<char>, body: Seq<u8>, r: FetchStep) -> bool {
    if starts_with(meta, text_gemini_mime()) {
        if valid_utf8(body) {
            match r {
                FetchStep::Done(d) => d.status == Status::Success && d.meta@ == meta && d.body@
                    == body && match d.doc {
                    Some(doc) => doc@ == crate::parser::spec_parse_doc(decode_utf8(body)),
                    None => false,
                },
                _ => false,
            }
        } else {
            r == FetchStep::Failed(Error::Utf8Error)
        }
    } else if starts_with(meta, text_mime()) {
        if valid_utf8(body) {
            match r {
                FetchStep::Done(d) => d.status == Status::Success && d.meta@ == meta && d.body@
                    == body && match d.doc {
                    Some(doc) => doc@ == seq![
                        LineView::Pre { alt: None, text: decode_utf8(body) },
                    ],
                    None => false,
                },
                _ => false,
            }
        } else {
            r == FetchStep::Failed(Error::Utf8Error)
        }
    } else {
        match r {
            FetchStep::Failed(e) => match e {
                Error::UnknownMeta(m) => m@ == meta,
                _ => false,
            },
            _ => false,
        }
    }
}

/// Where a redirect leads: its meta resolved against the current URL,
/// with the chain bounded at five hops and an empty target surfaced as a
/// parse error.
pub open spec fn redirect_target(pre: UrlModel, meta: Seq<char>) -> Option<UrlModel> {
    if meta.len() == 0 {
        None
    } else {
        match url_parse(meta) {
            UrlOutcomeModel::Parsed(m) => Some(m),
            UrlOutcomeModel::Relative => url_join(pre.serialized, meta),
            UrlOutcomeModel::Invalid => None,
        }
    }
}

/// The full response dispatch, relating one `on_response` call's pre and
/// post state to its result.
pub open spec fn response_rel(
    pre_url: UrlModel,
    pre_depth: int,
    data: Seq<u8>,
    post_url: UrlModel,
    post_depth: int,
    r: FetchStep,
) -> bool {
    match spec_parse_header(data) {
        Err(e) => r == FetchStep::Failed(e) && post_url == pre_url && post_depth == pre_depth,
        Ok(t) => {
            let st = t.0;
            let meta = t.1;
            let body = data.subrange(t.2, data.len() as int);
            if st == Status::Success {
                success_rel(meta, body, r) && post_url == pre_url && post_depth == pre_depth
            } else if st == Status::RedirectTemporary || st == Status::RedirectPermanent {
                match redirect_target(pre_url, meta) {
                    None => r == FetchStep::Failed(Error::UrlParseError) && post_url == pre_url
                        && post_depth == pre_depth,
                    Some(m) => if pre_depth + 1 >= 5 {
                        r == FetchStep::Failed(Error::TooManyRedirects) && post_url == pre_url
                            && post_depth == pre_depth
                    } else {
                        post_url == m && post_depth == pre_depth + 1 && plan_matches(m, r)
                    },
                }
            } else if st == Status::Input || st == Status::SensitiveInput {
                post_url == pre_url && post_depth == pre_depth && match r {
                    FetchStep::NeedInput { prompt, sensitive } => prompt@ == meta && sensitive == (
                    st == Status::SensitiveInput),
                    _ => false,
                }
            } else {
                post_url == pre_url && post_depth == pre_depth && match r {
                    FetchStep::Done(d) => d.status == st && d.meta@ == meta && d.body@ == body
                        && d.doc is None,
                    _ => false,
                }
            }
        },
    }
}

/// Plan the request for a URL: scheme and host are checked, the port
/// defaults to 1965, and the request line is the serialization plus CRLF.
pub fn plan_request(url: &UrlParts) -> (r: FetchStep)
    ensures
        plan_matches(url@, r),
{
    proof {
        reveal_strlit("gemini");
        assert(("gemini")@ =~= gemini_scheme());
        reveal_strlit("\r\n");
        assert(("\r\n")@ =~= crlf());
    }
    if !str_eq(url.scheme().as_str(), "gemini") {
        return FetchStep::Failed(Error::InvalidURLScheme(url.scheme().clone()));
    }
    match url.host_str() {
        None => FetchStep::Failed(Error::NoHostname(String::from_str(url.as_str()))),
        Some(h) => {
            let port = match url.port() {
                Some(p) => p,
                None => 1965,
            };
            let request = String::from_str(url.as_str()).concat("\r\n");
            FetchStep::Request { host: h.clone(), port, request }
        },
    }
}

/// The fetch engine's state: the URL in flight and how many redirect or
/// input hops led to it.
pub struct FetchMachine {
    pub url: UrlParts,
    pub depth: u8,
}

impl FetchMachine {
    /// Begin fetching `url`: the machine at depth zero, and the first
    /// step to take.
    pub fn start(url: UrlParts) -> (r: (FetchMachine, FetchStep))
        ensures
            r.0.url@ == url@,
            r.0.depth == 0,
            plan_matches(url@, r.1),
    {
        let step = plan_request(&url);
        (FetchMachine { url, depth: 0 }, step)
    }

    /// Begin fetching the URL a string names, if it parses as absolute.
    pub fn start_str(target: &str) -> (r: Option<(FetchMachine, FetchStep)>)
        ensures
            match r {
                Some(p) => match url_parse(target@) {
                    UrlOutcomeModel::Parsed(m) => p.0.url@ == m && p.0.depth == 0 && plan_matches(
                        m,
                        p.1,
                    ),
                    _ => false,
                },
                None => !(url_parse(target@) is Parsed),
            },
    {
        match parse_url(target) {
            UrlParseOutcome::Parsed(u) => Some(Self::start(u)),
            _ => None,
        }
    }

    /// Dispatch one response: parse its header, then follow the status
    /// class — deliver a document or a banner, follow a redirect, ask for
    /// input, or fail.
    pub fn on_response(&mut self, data: &[u8]) -> (r: FetchStep)
        ensures
            response_rel(
                old(self).url@,
                old(self).depth as int,
                data@,
                final (self).url@,
                final (self).depth as int,
                r,
            ),
    {
        proof {
            reveal_strlit("text/gemini");
            assert(("text/gemini")@ =~= text_gemini_mime());
            reveal_strlit("text/");
            assert(("text/")@ =~= text_mime());
        }
        let resp = match parse_response(data) {
            Ok(resp) => resp,
            Err(e) => {
                return FetchStep::Failed(e);
            },
        };
        match resp.status {
            Status::Success => {
                if starts_with_str(resp.meta.as_str(), "text/gemini") {
                    match utf8_string(&resp.body) {
                        None => FetchStep::Failed(Error::Utf8Error),
                        Some(text) => {
                            let doc = crate::parser::parse_text_gemini(text.as_str());
                            FetchStep::Done(
                                OwnedDocument {
                                    status: resp.status,
                                    meta: resp.meta,
                                    body: resp.body,
                                    doc: Some(doc),
                                },
                            )
                        },
                    }
                } else if starts_with_str(resp.meta.as_str(), "text/") {
                    match utf8_string(&resp.body) {
                        None => FetchStep::Failed(Error::Utf8Error),
                        Some(text) => {
                            let mut lines: Vec<Line> = Vec::new();
                            lines.push(Line::Pre { alt: None, text });
                            let doc = Document_(lines);
                            proof {
                                assert(doc@ =~= seq![
                                    LineView::Pre {
                                        alt: None,
                                        text: decode_utf8(
                                            data@.subrange(
                                                data@.len() - resp.body@.len(),
                                                data@.len() as int,
                                            ),
                                        ),
                                    },
                                ]);
                            }
                            FetchStep::Done(
                                OwnedDocument {
                                    status: resp.status,
                                    meta: resp.meta,
                                    body: resp.body,
                                    doc: Some(doc),
                                },
                            )
                        },
                    }
                } else {
                    FetchStep::Failed(Error::UnknownMeta(resp.meta))
                }
            },
            Status::RedirectTemporary | Status::RedirectPermanent => {
                if resp.meta.as_str().is_empty() {
                    return FetchStep::Failed(Error::UrlParseError);
                }
                let target = match parse_url(resp.meta.as_str()) {
                    UrlParseOutcome::Parsed(u) => Some(u),
                    UrlParseOutcome::Relative => join_url(&self.url, resp.meta.as_str()),
                    UrlParseOutcome::Invalid => None,
                };
                match target {
                    None => FetchStep::Failed(Error::UrlParseError),
                    Some(u) => {
                        if self.depth >= 4 {
                            FetchStep::Failed(Error::TooManyRedirects)
                        } else {
                            self.depth = self.depth + 1;
                            self.url = u;
                            plan_request(&self.url)
                        }
                    },
                }
            },
            Status::Input | Status::SensitiveInput => {
                let sensitive = match resp.status {
                    Status::SensitiveInput => true,
                    _ => false,
                };
                FetchStep::NeedInput { prompt: resp.meta, sensitive }
            },
            _ => {
                FetchStep::Done(
                    OwnedDocument {
                        status: resp.status,
                        meta: resp.meta,
                        body: resp.body,
                        doc: None,
                    },
                )
            },
        }
    }

    /// Resume after an input prompt: a cancelled prompt aborts the fetch;
    /// otherwise the input, percent-encoded, becomes the URL's query and
    /// the fetch re-enters one level deeper.
    pub fn on_input(&mut self, input: Option<&str>) -> (r: FetchStep)
        ensures
            match input {
                None => r == FetchStep::Failed(Error::InputCancelled) && final (self).url@ == old(
                    self,
                ).url@ && final (self).depth == old(self).depth,
                Some(s) => {
                    let m = url_with_query(old(self).url@.serialized, s@);
                    if old(self).depth + 1 >= 5 {
                        r == FetchStep::Failed(Error::TooManyRedirects) && final (self).url@ == old(
                            self,
                        ).url@ && final (self).depth == old(self).depth
                    } else {
                        final (self).url@ == m && final (self).depth == old(self).depth + 1
                            && plan_matches(m, r)
                    }
                },
            },
    {
        match input {
            None => FetchStep::Failed(Error::InputCancelled),
            Some(s) => {
                if self.depth >= 4 {
                    return FetchStep::Failed(Error::TooManyRedirects);
                }
                let u = set_url_query(&self.url, s);
                self.depth = self.depth + 1;
                self.url = u;
                plan_request(&self.url)
            },
        }
    }
}

} // verus!
