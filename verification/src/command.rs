//! The typed command line: `q` exits, `g <target>` loads a URL.

use vstd::prelude::*;

use crate::document::spec_words;
use crate::text::{is_ws, lemma_first_idx_is, scan_non_ws, scan_ws, substr, to_chars};
use crate::urls::{parse_url, url_parse, UrlOutcomeModel, UrlParseOutcome, UrlParts};

verus! {

/// What the viewport's command line can ask of the application.
pub enum Command {
    Exit,
    Load(UrlParts),
    TryLoad(String),
}

/// The scheme prefix tried in front of a bare target name.
pub open spec fn gemini_prefix() -> Seq<char> {
    seq!['g', 'e', 'm', 'i', 'n', 'i', ':', '/', '/']
}

/// The `k`-th whitespace-delimited token of the command line.
pub open spec fn token(s: Seq<char>, k: int) -> Seq<char> {
    s.subrange(spec_words(s, 0)[k].0, spec_words(s, 0)[k].1)
}

/// What `parse` returns for each command line.
pub open spec fn parse_spec_ok(s: Seq<char>, r: Result<Command, String>) -> bool {
    let ws = spec_words(s, 0);
    if ws.len() == 0 {
        r is Err
    } else if token(s, 0) == seq!['q'] {
        r == Ok::<Command, String>(Command::Exit)
    } else if token(s, 0) == seq!['g'] {
        if ws.len() < 2 {
            r is Err
        } else {
            let t = token(s, 1);
            match url_parse(t) {
                UrlOutcomeModel::Parsed(m) => match r {
                    Ok(Command::Load(u)) => u@ == m,
                    _ => false,
                },
                UrlOutcomeModel::Relative => match url_parse(gemini_prefix() + t) {
                    UrlOutcomeModel::Parsed(m) => match r {
                        Ok(Command::Load(u)) => u@ == m,
                        _ => false,
                    },
                    _ => r is Err,
                },
                UrlOutcomeModel::Invalid => r is Err,
            }
        }
    } else {
        r is Err
    }
}

impl Command {
    /// Parse a typed command line: `q` exits; `g <target>` loads the
    /// target as an absolute URL, trying `gemini://<target>` when it is a
    /// bare name; anything else is an error to show the user.
    pub fn parse(cmd: String) -> (r: Result<Command, String>)
        ensures
            parse_spec_ok(cmd@, r),
            match r {
                Ok(Command::Load(u)) => url_parse(u@.serialized) == UrlOutcomeModel::Parsed(u@),
                _ => true,
            },
    {
        let v = to_chars(cmd.as_str());
        let n = v.len();
        let b0 = scan_non_ws(&v, 0);
        proof {
            lemma_first_idx_is(cmd@, 0, |c: char| !is_ws(c), b0 as int);
        }
        if b0 >= n {
            proof {
                assert(spec_words(cmd@, 0).len() == 0);
            }
            return Err(String::from_str("unknown command: ").concat(cmd.as_str()));
        }
        let e0 = scan_ws(&v, b0);
        proof {
            lemma_first_idx_is(cmd@, b0 as int, |c: char| is_ws(c), e0 as int);
            assert(spec_words(cmd@, 0) == seq![(b0 as int, e0 as int)] + spec_words(
                cmd@,
                e0 as int,
            ));
            assert(spec_words(cmd@, 0)[0] == (b0 as int, e0 as int));
            assert(token(cmd@, 0) == cmd@.subrange(b0 as int, e0 as int));
        }
        let single = e0 - b0 == 1;
        let is_q = single && v[b0] == 'q';
        let is_g = single && v[b0] == 'g';
        proof {
            if is_q {
                assert(cmd@.subrange(b0 as int, e0 as int) =~= seq!['q']);
            } else if token(cmd@, 0) == seq!['q'] {
                assert(cmd@.subrange(b0 as int, e0 as int).len() == 1);
                assert(cmd@.subrange(b0 as int, e0 as int)[0] == cmd@[b0 as int]);
                assert(false);
            }
            if is_g {
                assert(cmd@.subrange(b0 as int, e0 as int) =~= seq!['g']);
            } else if token(cmd@, 0) == seq!['g'] {
                assert(cmd@.subrange(b0 as int, e0 as int).len() == 1);
                assert(cmd@.subrange(b0 as int, e0 as int)[0] == cmd@[b0 as int]);
                assert(false);
            }
        }
        if is_q {
            return Ok(Command::Exit);
        }
        if !is_g {
            return Err(String::from_str("unknown command: ").concat(cmd.as_str()));
        }
        let b1 = scan_non_ws(&v, e0);
        proof {
            lemma_first_idx_is(cmd@, e0 as int, |c: char| !is_ws(c), b1 as int);
        }
        if b1 >= n {
            proof {
                assert(spec_words(cmd@, e0 as int).len() == 0);
                assert(spec_words(cmd@, 0).len() == 1);
            }
            return Err(String::from_str("missing URL"));
        }
        let e1 = scan_ws(&v, b1);
        let t1 = substr(cmd.as_str(), b1, e1);
        proof {
            lemma_first_idx_is(cmd@, b1 as int, |c: char| is_ws(c), e1 as int);
            assert(spec_words(cmd@, e0 as int) == seq![(b1 as int, e1 as int)] + spec_words(
                cmd@,
                e1 as int,
            ));
            assert(spec_words(cmd@, 0).len() >= 2);
            assert(spec_words(cmd@, 0)[1] == spec_words(cmd@, e0 as int)[0]);
            assert(token(cmd@, 1) == cmd@.subrange(b1 as int, e1 as int));
            assert(t1@ == token(cmd@, 1));
        }
        match parse_url(t1.as_str()) {
            UrlParseOutcome::Parsed(u) => Ok(Command::Load(u)),
            UrlParseOutcome::Relative => {
                let full = String::from_str("gemini://").concat(t1.as_str());
                proof {
                    reveal_strlit("gemini://");
                    assert(("gemini://")@ =~= gemini_prefix());
                    assert(full@ == gemini_prefix() + token(cmd@, 1));
                }
                match parse_url(full.as_str()) {
                    UrlParseOutcome::Parsed(u) => Ok(Command::Load(u)),
                    _ => Err(String::from_str("invalid URL ").concat(t1.as_str())),
                }
            },
            UrlParseOutcome::Invalid => Err(String::from_str("invalid URL ").concat(t1.as_str())),
        }
    }
}

/// Where a followed link leads: an absolute URL as it stands, or a
/// relative one resolved against the current page.
pub fn resolve_target(current: &UrlParts, s: &str) -> (r: Option<UrlParts>)
    ensures
        match r {
            Some(u) => (match url_parse(s@) {
                UrlOutcomeModel::Parsed(m) => u@ == m,
                UrlOutcomeModel::Relative => crate::urls::url_join(current@.serialized, s@) == Some(
                    u@,
                ),
                UrlOutcomeModel::Invalid => false,
            }) && url_parse(u@.serialized) == UrlOutcomeModel::Parsed(u@),
            None => match url_parse(s@) {
                UrlOutcomeModel::Parsed(m) => false,
                UrlOutcomeModel::Relative => crate::urls::url_join(current@.serialized, s@)
                    is None,
                UrlOutcomeModel::Invalid => true,
            },
        },
{
    match parse_url(s) {
        UrlParseOutcome::Parsed(u) => Some(u),
        UrlParseOutcome::Relative => crate::urls::join_url(current, s),
        UrlParseOutcome::Invalid => None,
    }
}

} // verus!
