//! The response-header parser (over bytes) and the total `text/gemini`
//! body parser (over characters).
//!
//! Each executable parser is proved equal to a spec-level grammar
//! function, so the grammar itself — not the scanning code — is what the
//! rest of the crate reasons about.

use vstd::prelude::*;

use crate::error::Error;
use crate::protocol::{status_of_code, Document, Document_, Line, LineView, Response, Status};
use crate::text::{
    first_idx, is_line_end, is_ws, join_nl, lemma_first_idx_is, lemma_join_push, lemma_take_line,
    line_end, line_next, non_space, scan_line_end, scan_non_space, scan_ws, strip_spaces, substr,
    take_line_content, take_line_rest, to_chars,
};
use vstd::utf8::{decode_utf8, valid_utf8};

verus! {

// ------------------------------------------------------------------
// Response header, over bytes.
// ------------------------------------------------------------------
pub open spec fn is_digit_byte(b: u8) -> bool {
    48 <= b && b <= 57
}

/// The first index at or after `i` holding a carriage return, or the length.
pub open spec fn cr_idx(b: Seq<u8>, i: int) -> int
    decreases b.len() - i,
    when 0 <= i <= b.len()
{
    if i >= b.len() {
        i
    } else if b[i] == 13 {
        i
    } else {
        cr_idx(b, i + 1)
    }
}

pub proof fn lemma_cr_idx_is(b: Seq<u8>, i: int, j: int)
    requires
        0 <= i <= j <= b.len(),
        forall|k: int| i <= k < j ==> b[k] != 13,
        j < b.len() ==> b[j] == 13,
    ensures
        cr_idx(b, i) == j,
    decreases b.len() - i,
{
    if i < b.len() && b[i] != 13 {
        lemma_cr_idx_is(b, i + 1, j);
    }
}

/// The numeric value of the two leading digit bytes.
pub open spec fn header_code(b: Seq<u8>) -> u32 {
    (((b[0] - 48) as u32) * 10 + ((b[1] - 48) as u32)) as u32
}

pub open spec fn header_digits_ok(b: Seq<u8>) -> bool {
    b.len() >= 2 && is_digit_byte(b[0]) && is_digit_byte(b[1])
}

/// Index of the carriage return that ends the meta field.
pub open spec fn header_meta_end(b: Seq<u8>) -> int {
    cr_idx(b, 3)
}

/// After the digits: one space, at most 1024 non-CR meta bytes, then CRLF.
pub open spec fn header_shape_ok(b: Seq<u8>) -> bool {
    &&& b.len() >= 3
    &&& b[2] == 32
    &&& header_meta_end(b) - 3 <= 1024
    &&& header_meta_end(b) + 1 < b.len()
    &&& b[header_meta_end(b) + 1] == 10
}

pub open spec fn header_meta_bytes(b: Seq<u8>) -> Seq<u8> {
    b.subrange(3, header_meta_end(b))
}

/// Index of the first body byte, just past the CRLF.
pub open spec fn header_body_start(b: Seq<u8>) -> int {
    header_meta_end(b) + 2
}

/// The header parse at the spec level: status, meta characters, and the
/// index where the body begins.
pub open spec fn spec_parse_header(b: Seq<u8>) -> Result<(Status, Seq<char>, int), Error> {
    if !header_digits_ok(b) {
        Err(Error::ParseError)
    } else {
        match status_of_code(header_code(b)) {
            None => Err(Error::InvalidStatusCode(header_code(b))),
            Some(st) => if !header_shape_ok(b) {
                Err(Error::ParseError)
            } else if !valid_utf8(header_meta_bytes(b)) {
                Err(Error::ParseError)
            } else {
                Ok((st, decode_utf8(header_meta_bytes(b)), header_body_start(b)))
            },
        }
    }
}

/// Every two-digit code in a well-shaped header yields exactly the
/// status the code names: `"<NN> meta\r\n"` parses to that status with
/// the meta decoded, and fails with `InvalidStatusCode` exactly when the
/// code is outside the closed set.
pub proof fn lemma_header_status(c: u32, meta: Seq<u8>)
    requires
        10 <= c <= 99,
        meta.len() <= 1024,
        forall|i: int| 0 <= i < meta.len() ==> meta[i] != 13,
        valid_utf8(meta),
    ensures
        ({
            let b = seq![(48 + c / 10) as u8, (48 + c % 10) as u8, 32u8] + meta + seq![13u8, 10u8];
            spec_parse_header(b) == match status_of_code(c) {
                Some(st) => Ok::<(Status, Seq<char>, int), Error>(
                    (st, decode_utf8(meta), b.len() as int),
                ),
                None => Err::<(Status, Seq<char>, int), Error>(Error::InvalidStatusCode(c)),
            }
        }),
{
    let b = seq![(48 + c / 10) as u8, (48 + c % 10) as u8, 32u8] + meta + seq![13u8, 10u8];
    assert(b.len() == meta.len() + 5);
    assert(b[0] == (48 + c / 10) as u8 && b[1] == (48 + c % 10) as u8 && b[2] == 32u8);
    assert(1 <= c / 10 <= 9 && 0 <= c % 10 <= 9) by (nonlinear_arith)
        requires
            10 <= c <= 99,
    ;
    assert(header_digits_ok(b));
    assert(header_code(b) == c) by {
        assert((c / 10) * 10 + c % 10 == c) by (nonlinear_arith)
            requires
                c >= 0,
        ;
    }
    let e = 3 + meta.len() as int;
    assert forall|k: int| 3 <= k < e implies b[k] != 13 by {
        assert(b[k] == meta[k - 3]);
    }
    assert(b[e] == 13u8 && b[e + 1] == 10u8);
    lemma_cr_idx_is(b, 3, e);
    assert(header_meta_end(b) == e);
    assert(header_shape_ok(b));
    assert(header_meta_bytes(b) =~= meta);
    assert(header_body_start(b) == b.len());
}

/// Relies on std::str::from_utf8: it succeeds exactly on UTF-8 input, and
/// the returned string holds those bytes decoded.
#[verifier::external_body]
pub(crate) fn utf8_string(v: &Vec<u8>) -> (r: Option<String>)
    ensures
        match r {
            Some(s) => valid_utf8(v@) && s@ == decode_utf8(v@),
            None => !valid_utf8(v@),
        },
{
    match core::str::from_utf8(v.as_slice()) {
        Ok(s) => Some(s.to_string()),
        Err(_) => None,
    }
}

/// The status named by a two-digit ASCII code.
pub fn parse_response_status(i: &[u8]) -> (r: Result<Status, Error>)
    ensures
        match r {
            Ok(s) => header_digits_ok(i@) && i@.len() == 2 && status_of_code(header_code(i@))
                == Some(s),
            Err(e) => if header_digits_ok(i@) && i@.len() == 2 {
                status_of_code(header_code(i@)) is None && e == Error::InvalidStatusCode(
                    header_code(i@),
                )
            } else {
                e == Error::ParseError
            },
        },
{
    if i.len() != 2 {
        return Err(Error::ParseError);
    }
    let b0 = *vstd::slice::slice_index_get(i, 0);
    let b1 = *vstd::slice::slice_index_get(i, 1);
    if b0 < 48 || b0 > 57 || b1 < 48 || b1 > 57 {
        return Err(Error::ParseError);
    }
    let code: u32 = ((b0 - 48) as u32) * 10 + ((b1 - 48) as u32);
    Status::try_from(code)
}

/// Parse the `<SS> <META>\r\n` header; on success the returned index is
/// where the body begins.
pub fn parse_response_header(input: &[u8]) -> (r: Result<(Status, String, usize), Error>)
    ensures
        match r {
            Ok(t) => spec_parse_header(input@) == Ok::<(Status, Seq<char>, int), Error>(
                (t.0, t.1@, t.2 as int),
            ),
            Err(e) => spec_parse_header(input@) == Err::<(Status, Seq<char>, int), Error>(e),
        },
{
    let n = input.len();
    if n < 2 {
        return Err(Error::ParseError);
    }
    let b0 = *vstd::slice::slice_index_get(input, 0);
    let b1 = *vstd::slice::slice_index_get(input, 1);
    if b0 < 48 || b0 > 57 || b1 < 48 || b1 > 57 {
        return Err(Error::ParseError);
    }
    let code: u32 = ((b0 - 48) as u32) * 10 + ((b1 - 48) as u32);
    let status = match Status::try_from(code) {
        Ok(s) => s,
        Err(e) => {
            return Err(e);
        },
    };
    if n < 3 || *vstd::slice::slice_index_get(input, 2) != 32 {
        return Err(Error::ParseError);
    }
    // Scan for the CR that ends the meta field.
    let mut e: usize = 3;
    while e < n && *vstd::slice::slice_index_get(input, e) != 13
        invariant
            3 <= e <= n,
            n == input@.len(),
            forall|k: int| 3 <= k < e ==> input@[k] != 13,
        decreases n - e,
    {
        e = e + 1;
    }
    proof {
        lemma_cr_idx_is(input@, 3, e as int);
    }
    if e - 3 > 1024 {
        return Err(Error::ParseError);
    }
    if e + 1 >= n || *vstd::slice::slice_index_get(input, e + 1) != 10 {
        return Err(Error::ParseError);
    }
    let mut meta_bytes: Vec<u8> = Vec::new();
    let mut i: usize = 3;
    while i < e
        invariant
            3 <= i <= e <= n,
            n == input@.len(),
            e + 1 < n,
            meta_bytes@ =~= input@.subrange(3, i as int),
        decreases e - i,
    {
        meta_bytes.push(*vstd::slice::slice_index_get(input, i));
        i = i + 1;
    }
    assert(meta_bytes@ =~= header_meta_bytes(input@));
    match utf8_string(&meta_bytes) {
        Some(meta) => Ok((status, meta, e + 2)),
        None => Err(Error::ParseError),
    }
}

/// Parse a full response: the header, then the body as the untouched tail.
pub fn parse_response(input: &[u8]) -> (r: Result<Response, Error>)
    ensures
        match r {
            Ok(resp) => spec_parse_header(input@) == Ok::<(Status, Seq<char>, int), Error>(
                (resp.status, resp.meta@, input@.len() - resp.body@.len()),
            ) && resp.body@ == input@.subrange(
                input@.len() - resp.body@.len(),
                input@.len() as int,
            ),
            Err(e) => spec_parse_header(input@) == Err::<(Status, Seq<char>, int), Error>(e),
        },
{
    match parse_response_header(input) {
        Ok((status, meta, body_start)) => {
            assert(0 <= body_start <= input@.len());
            let tail = vstd::slice::slice_subrange(input, body_start, input.len());
            let body = vstd::slice::slice_to_vec(tail);
            Ok(Response { status, meta, body })
        },
        Err(e) => Err(e),
    }
}

// ------------------------------------------------------------------
// text/gemini body, over characters.
// ------------------------------------------------------------------
/// The three-backtick fence that toggles a preformatted block.
pub open spec fn fence() -> Seq<char> {
    seq!['`', '`', '`']
}

/// Accumulate raw lines until a fence line or the end of input; returns
/// the lines and the remaining input.
pub open spec fn spec_parse_pre_lines(s: Seq<char>) -> (Seq<Seq<char>>, Seq<char>)
    decreases s.len(),
    via spec_parse_pre_lines_dec
{
    if s.len() == 0 {
        (Seq::empty(), s)
    } else {
        let c = take_line_content(s);
        let r = take_line_rest(s);
        if c == fence() {
            (Seq::empty(), r)
        } else {
            let (ls, rest) = spec_parse_pre_lines(r);
            (seq![c] + ls, rest)
        }
    }
}

#[via_fn]
proof fn spec_parse_pre_lines_dec(s: Seq<char>) {
    lemma_take_line(s);
}

pub proof fn lemma_pre_lines_rest(s: Seq<char>)
    ensures
        spec_parse_pre_lines(s).1.len() <= s.len(),
    decreases s.len(),
{
    lemma_take_line(s);
    if s.len() > 0 && take_line_content(s) != fence() {
        lemma_pre_lines_rest(take_line_rest(s));
    }
}

/// The payload of a prefixed line: drop the first `k` characters, take the
/// line's content, strip its leading spaces.
pub open spec fn prefixed(s: Seq<char>, k: int) -> (Seq<char>, Seq<char>)
    recommends
        0 <= k <= s.len(),
{
    let t = s.subrange(k, s.len() as int);
    (strip_spaces(take_line_content(t)), take_line_rest(t))
}

/// A link line's content after the arrow: optional spaces, a run of
/// non-whitespace as the URL, optional spaces, the rest as the name.
pub open spec fn spec_parse_link(c: Seq<char>) -> LineView {
    let i = non_space(c, 0);
    let j = first_idx(c, i, |ch: char| is_ws(ch));
    let url = c.subrange(i, j);
    let k = non_space(c, j);
    let name = c.subrange(k, c.len() as int);
    if name.len() == 0 {
        LineView::BareLink(url)
    } else {
        LineView::NamedLink { url, name }
    }
}

/// Parse one line (or one preformatted block) from the front of `s`;
/// returns the line and the remaining input.  Longest-prefix order:
/// `###`, `##`, `#`, `* `, `>`, `=>`, the fence, then plain text.
pub open spec fn spec_parse_line(s: Seq<char>) -> (LineView, Seq<char>) {
    if s.len() >= 3 && s[0] == '#' && s[1] == '#' && s[2] == '#' {
        let (p, r) = prefixed(s, 3);
        (LineView::H3(p), r)
    } else if s.len() >= 2 && s[0] == '#' && s[1] == '#' {
        let (p, r) = prefixed(s, 2);
        (LineView::H2(p), r)
    } else if s.len() >= 1 && s[0] == '#' {
        let (p, r) = prefixed(s, 1);
        (LineView::H1(p), r)
    } else if s.len() >= 2 && s[0] == '*' && s[1] == ' ' {
        let (p, r) = prefixed(s, 2);
        (LineView::List(p), r)
    } else if s.len() >= 1 && s[0] == '>' {
        let (p, r) = prefixed(s, 1);
        (LineView::Quote(p), r)
    } else if s.len() >= 2 && s[0] == '=' && s[1] == '>' {
        let t = s.subrange(2, s.len() as int);
        (spec_parse_link(take_line_content(t)), take_line_rest(t))
    } else if s.len() >= 3 && s[0] == '`' && s[1] == '`' && s[2] == '`' {
        let t = s.subrange(3, s.len() as int);
        let altc = take_line_content(t);
        let alt = if altc.len() == 0 {
            Option::<Seq<char>>::None
        } else {
            Some(altc)
        };
        let (ls, rest) = spec_parse_pre_lines(take_line_rest(t));
        (LineView::Pre { alt, text: join_nl(ls) }, rest)
    } else {
        (LineView::Text(take_line_content(s)), take_line_rest(s))
    }
}

pub proof fn lemma_parse_line_progress(s: Seq<char>)
    requires
        s.len() > 0,
    ensures
        spec_parse_line(s).1.len() < s.len(),
        spec_parse_line(s).1.len() <= s.len() - 1,
{
    lemma_take_line(s);
    if s.len() >= 3 && s[0] == '#' && s[1] == '#' && s[2] == '#' {
        lemma_take_line(s.subrange(3, s.len() as int));
    } else if s.len() >= 2 && s[0] == '#' && s[1] == '#' {
        lemma_take_line(s.subrange(2, s.len() as int));
    } else if s.len() >= 1 && s[0] == '#' {
        lemma_take_line(s.subrange(1, s.len() as int));
    } else if s.len() >= 2 && s[0] == '*' && s[1] == ' ' {
        lemma_take_line(s.subrange(2, s.len() as int));
    } else if s.len() >= 1 && s[0] == '>' {
        lemma_take_line(s.subrange(1, s.len() as int));
    } else if s.len() >= 2 && s[0] == '=' && s[1] == '>' {
        lemma_take_line(s.subrange(2, s.len() as int));
    } else if s.len() >= 3 && s[0] == '`' && s[1] == '`' && s[2] == '`' {
        let t = s.subrange(3, s.len() as int);
        lemma_take_line(t);
        lemma_pre_lines_rest(take_line_rest(t));
    }
}

/// The whole body parse: a sequence of lines, with nothing left over.
pub open spec fn spec_parse_doc(s: Seq<char>) -> Seq<LineView>
    decreases s.len(),
    via spec_parse_doc_dec
{
    if s.len() == 0 {
        Seq::empty()
    } else {
        let (l, r) = spec_parse_line(s);
        seq![l] + spec_parse_doc(r)
    }
}

#[via_fn]
proof fn spec_parse_doc_dec(s: Seq<char>) {
    if s.len() > 0 {
        lemma_parse_line_progress(s);
    }
}

/// Advance past a line terminator found at `e`: a CRLF pair counts as one.
fn skip_terminator(v: &Vec<char>, e: usize) -> (n: usize)
    requires
        e <= v@.len(),
    ensures
        n == if e == v@.len() {
            e as int
        } else if v@[e as int] == '\r' && e + 1 < v@.len() && v@[e + 1] == '\n' {
            e + 2
        } else {
            e + 1
        },
        e <= n <= v@.len(),
{
    if e == v.len() {
        e
    } else if v[e] == '\r' && e + 1 < v.len() && v[e + 1] == '\n' {
        e + 2
    } else {
        e + 1
    }
}

/// Facts tying an absolute line scan at `pos` to the spec functions on the
/// suffix starting at `pos`.
proof fn lemma_line_at(v: Seq<char>, pos: int, e: int, next: int)
    requires
        0 <= pos <= e <= v.len(),
        forall|k: int| pos <= k < e ==> !is_line_end(v[k]),
        e < v.len() ==> is_line_end(v[e]),
        next == if e == v.len() {
            e
        } else if v[e] == '\r' && e + 1 < v.len() && v[e + 1] == '\n' {
            e + 2
        } else {
            e + 1
        },
    ensures
        line_end(v.subrange(pos, v.len() as int)) == e - pos,
        line_next(v.subrange(pos, v.len() as int)) == next - pos,
        take_line_content(v.subrange(pos, v.len() as int)) == v.subrange(pos, e),
        take_line_rest(v.subrange(pos, v.len() as int)) == v.subrange(next, v.len() as int),
{
    let s = v.subrange(pos, v.len() as int);
    assert forall|k: int| 0 <= k < e - pos implies !is_line_end(s[k]) by {
        assert(s[k] == v[k + pos]);
    }
    lemma_first_idx_is(s, 0, |c: char| is_line_end(c), e - pos);
    assert(line_end(s) == e - pos);
    assert(take_line_content(s) =~= v.subrange(pos, e));
    if e < v.len() {
        assert(s[e - pos] == v[e]);
        if v[e] == '\r' && e + 1 < v.len() && v[e + 1] == '\n' {
            assert(s[e + 1 - pos] == v[e + 1]);
            assert(line_next(s) == e + 2 - pos);
        } else {
            if e + 1 < v.len() {
                assert(s[e + 1 - pos] == v[e + 1]);
            }
            assert(line_next(s) == e + 1 - pos);
        }
    } else {
        assert(line_next(s) == e - pos);
    }
    assert(take_line_rest(s) =~= v.subrange(next, v.len() as int));
}

/// Shared scanning for the prefixed variants: content after position
/// `pos + k`, with leading spaces stripped.
fn parse_prefixed(s: &str, v: &Vec<char>, pos: usize, k: usize) -> (r: (usize, String))
    requires
        v@ == s@,
        1 <= k,
        pos + k <= v@.len(),
    ensures
        ({
            let (p, rest) = prefixed(v@.subrange(pos as int, v@.len() as int), k as int);
            &&& r.1@ == p
            &&& v@.subrange(r.0 as int, v@.len() as int) == rest
            &&& pos + k <= r.0 <= v@.len()
        }),
{
    let n = v.len();
    let start = pos + k;
    let e = scan_line_end(v, start);
    let p0 = scan_non_space(v, start);
    assert(p0 <= e) by {
        if p0 > e {
            assert(v@[e as int] == ' ');
            assert(is_line_end(v@[e as int]));
        }
    }
    let payload = substr(s, p0, e);
    let next = skip_terminator(v, e);
    proof {
        let whole = v@.subrange(pos as int, v@.len() as int);
        let t = whole.subrange(k as int, whole.len() as int);
        assert(t =~= v@.subrange(start as int, v@.len() as int));
        lemma_line_at(v@, start as int, e as int, next as int);
        let c = take_line_content(t);
        assert(c == v@.subrange(start as int, e as int));
        assert forall|q: int| 0 <= q < p0 - start implies c[q] == ' ' by {
            assert(c[q] == v@[q + start]);
        }
        if p0 < e {
            assert(c[p0 - start] == v@[p0 as int]);
        }
        lemma_first_idx_is(c, 0, |ch: char| ch != ' ', p0 - start);
        assert(strip_spaces(c) =~= v@.subrange(p0 as int, e as int));
    }
    (next, payload)
}

/// Accumulate a preformatted block's body from `pos` until a fence line or
/// the end of input; returns where parsing resumed and the joined text.
fn parse_pre_body(s: &str, v: &Vec<char>, pos: usize) -> (r: (usize, String))
    requires
        v@ == s@,
        pos <= v@.len(),
    ensures
        ({
            let (ls, rest) = spec_parse_pre_lines(v@.subrange(pos as int, v@.len() as int));
            &&& r.1@ == join_nl(ls)
            &&& v@.subrange(r.0 as int, v@.len() as int) == rest
            &&& pos <= r.0 <= v@.len()
        }),
{
    let ghost whole = v@.subrange(pos as int, v@.len() as int);
    let mut text = String::new();
    let mut first = true;
    let mut i = pos;
    let ghost mut acc: Seq<Seq<char>> = Seq::empty();
    loop
        invariant_except_break
            spec_parse_pre_lines(whole).0 == acc + spec_parse_pre_lines(
                v@.subrange(i as int, v@.len() as int),
            ).0,
            spec_parse_pre_lines(whole).1 == spec_parse_pre_lines(
                v@.subrange(i as int, v@.len() as int),
            ).1,
        invariant
            v@ == s@,
            pos <= i <= v@.len(),
            whole == v@.subrange(pos as int, v@.len() as int),
            text@ == join_nl(acc),
            first <==> acc.len() == 0,
        ensures
            ({
                let (ls, rest) = spec_parse_pre_lines(whole);
                text@ == join_nl(ls) && v@.subrange(i as int, v@.len() as int) == rest && pos <= i
                    <= v@.len()
            }),
        decreases v@.len() - i,
    {
        let ghost sub = v@.subrange(i as int, v@.len() as int);
        if i >= v.len() {
            proof {
                assert(sub.len() == 0);
                assert(spec_parse_pre_lines(sub).0 == Seq::<Seq<char>>::empty());
                assert(acc + Seq::<Seq<char>>::empty() =~= acc);
            }
            break ;
        }
        let e = scan_line_end(v, i);
        let next = skip_terminator(v, e);
        proof {
            lemma_line_at(v@, i as int, e as int, next as int);
        }
        let is_fence = e - i == 3 && v[i] == '`' && v[i + 1] == '`' && v[i + 2] == '`';
        proof {
            let c = take_line_content(sub);
            assert(c == v@.subrange(i as int, e as int));
            if is_fence {
                assert(c =~= fence());
            } else {
                if c == fence() {
                    assert(c.len() == 3);
                    assert(v@[i as int] == c[0] && v@[i + 1] == c[1] && v@[i + 2] == c[2]);
                }
                assert(c != fence());
            }
        }
        if is_fence {
            proof {
                assert(spec_parse_pre_lines(sub).0 == Seq::<Seq<char>>::empty());
                assert(spec_parse_pre_lines(sub).1 == v@.subrange(next as int, v@.len() as int));
                assert(acc + Seq::<Seq<char>>::empty() =~= acc);
                assert(spec_parse_pre_lines(whole).0 == acc);
                assert(spec_parse_pre_lines(whole).1 == v@.subrange(next as int, v@.len() as int));
            }
            i = next;
            break ;
        }
        let piece = substr(s, i, e);
        if first {
            text = piece;
            first = false;
        } else {
            text.append("\n");
            text.append(piece.as_str());
        }
        proof {
            let c = take_line_content(sub);
            let tail = v@.subrange(next as int, v@.len() as int);
            assert(spec_parse_pre_lines(sub).0 == seq![c] + spec_parse_pre_lines(tail).0);
            assert(spec_parse_pre_lines(sub).1 == spec_parse_pre_lines(tail).1);
            lemma_join_push(acc, c);
            assert(text@ == join_nl(acc.push(c))) by {
                if acc.len() == 0 {
                    assert(join_nl(acc.push(c)) == c);
                } else {
                    reveal_strlit("\n");
                    assert(("\n")@ =~= seq!['\n']);
                    assert(join_nl(acc.push(c)) == join_nl(acc) + seq!['\n'] + c);
                }
            }
            acc = acc.push(c);
            assert((acc.drop_last() + seq![c]) + spec_parse_pre_lines(tail).0 =~= acc
                + spec_parse_pre_lines(tail).0);
            assert(acc.drop_last() + (seq![c] + spec_parse_pre_lines(tail).0) =~= (acc.drop_last()
                + seq![c]) + spec_parse_pre_lines(tail).0);
        }
        i = next;
    }
    (i, text)
}

/// Parse one line or preformatted block beginning at character `pos`;
/// returns the position where the remainder begins and the parsed line.
#[verifier::rlimit(100)]
fn parse_line_at(s: &str, v: &Vec<char>, pos: usize) -> (r: (usize, Line))
    requires
        v@ == s@,
        pos <= v@.len(),
    ensures
        ({
            let (l, rest) = spec_parse_line(v@.subrange(pos as int, v@.len() as int));
            &&& r.1@ == l
            &&& v@.subrange(r.0 as int, v@.len() as int) == rest
            &&& pos <= r.0 <= v@.len()
            &&& pos < v@.len() ==> pos < r.0
        }),
{
    let ghost sub = v@.subrange(pos as int, v@.len() as int);
    proof {
        if pos < v@.len() {
            lemma_parse_line_progress(sub);
        }
    }
    let rem = v.len() - pos;
    if rem >= 3 && v[pos] == '#' && v[pos + 1] == '#' && v[pos + 2] == '#' {
        let (next, p) = parse_prefixed(s, v, pos, 3);
        (next, Line::H3(p))
    } else if rem >= 2 && v[pos] == '#' && v[pos + 1] == '#' {
        let (next, p) = parse_prefixed(s, v, pos, 2);
        (next, Line::H2(p))
    } else if rem >= 1 && v[pos] == '#' {
        let (next, p) = parse_prefixed(s, v, pos, 1);
        (next, Line::H1(p))
    } else if rem >= 2 && v[pos] == '*' && v[pos + 1] == ' ' {
        let (next, p) = parse_prefixed(s, v, pos, 2);
        (next, Line::List(p))
    } else if rem >= 1 && v[pos] == '>' {
        let (next, p) = parse_prefixed(s, v, pos, 1);
        (next, Line::Quote(p))
    } else if rem >= 2 && v[pos] == '=' && v[pos + 1] == '>' {
        let start = pos + 2;
        let e = scan_line_end(v, start);
        let next = skip_terminator(v, e);
        let i0 = scan_non_space(v, start);
        assert(i0 <= e) by {
            if i0 > e {
                assert(v@[e as int] == ' ' && is_line_end(v@[e as int]));
            }
        }
        let j = scan_ws(v, i0);
        assert(j <= e) by {
            if j > e {
                assert(!is_ws(v@[e as int]) && is_line_end(v@[e as int]));
            }
        }
        let k0 = scan_non_space(v, j);
        assert(k0 <= e) by {
            if k0 > e {
                assert(v@[e as int] == ' ' && is_line_end(v@[e as int]));
            }
        }
        let url = substr(s, i0, j);
        proof {
            let t = sub.subrange(2, sub.len() as int);
            assert(t =~= v@.subrange(start as int, v@.len() as int));
            lemma_line_at(v@, start as int, e as int, next as int);
            let c = take_line_content(t);
            assert(c == v@.subrange(start as int, e as int));
            assert forall|q: int| 0 <= q < i0 - start implies c[q] == ' ' by {
                assert(c[q] == v@[q + start]);
            }
            if i0 < e {
                assert(c[i0 - start] == v@[i0 as int]);
            }
            lemma_first_idx_is(c, 0, |ch: char| ch != ' ', i0 - start);
            assert forall|q: int| i0 - start <= q < j - start implies !is_ws(c[q]) by {
                assert(c[q] == v@[q + start]);
            }
            if j < e {
                assert(c[j - start] == v@[j as int]);
            }
            lemma_first_idx_is(c, i0 - start, |ch: char| is_ws(ch), j - start);
            assert forall|q: int| j - start <= q < k0 - start implies c[q] == ' ' by {
                assert(c[q] == v@[q + start]);
            }
            if k0 < e {
                assert(c[k0 - start] == v@[k0 as int]);
            }
            lemma_first_idx_is(c, j - start, |ch: char| ch != ' ', k0 - start);
            assert(c.subrange(i0 - start, j - start) =~= v@.subrange(i0 as int, j as int));
            assert(c.subrange(k0 - start, c.len() as int) =~= v@.subrange(k0 as int, e as int));
        }
        if k0 == e {
            (next, Line::BareLink(url))
        } else {
            let name = substr(s, k0, e);
            (next, Line::NamedLink { url, name })
        }
    } else if rem >= 3 && v[pos] == '`' && v[pos + 1] == '`' && v[pos + 2] == '`' {
        let start = pos + 3;
        let e = scan_line_end(v, start);
        let next = skip_terminator(v, e);
        let alt = if e == start {
            Option::<String>::None
        } else {
            Some(substr(s, start, e))
        };
        proof {
            let t = sub.subrange(3, sub.len() as int);
            assert(t =~= v@.subrange(start as int, v@.len() as int));
            lemma_line_at(v@, start as int, e as int, next as int);
            assert(take_line_content(t) == v@.subrange(start as int, e as int));
            assert(take_line_content(t).len() == e - start);
        }
        let (after, text) = parse_pre_body(s, v, next);
        (after, Line::Pre { alt, text })
    } else {
        let e = scan_line_end(v, pos);
        let next = skip_terminator(v, e);
        let payload = substr(s, pos, e);
        proof {
            lemma_line_at(v@, pos as int, e as int, next as int);
            assert(sub =~= v@.subrange(pos as int, v@.len() as int));
            assert(take_line_content(sub) == v@.subrange(pos as int, e as int));
        }
        (next, Line::Text(payload))
    }
}

/// Parse a single line or preformatted block of `text/gemini`; returns how
/// many characters were consumed and the parsed line.
pub fn parse_line(input: &str) -> (r: (usize, Line))
    ensures
        r.1@ == spec_parse_line(input@).0,
        input@.subrange(r.0 as int, input@.len() as int) == spec_parse_line(input@).1,
        r.0 <= input@.len(),
{
    let v = to_chars(input);
    let r = parse_line_at(input, &v, 0);
    proof {
        assert(v@.subrange(0, v@.len() as int) =~= input@);
    }
    r
}

/// Parse a full `text/gemini` document.  Total: every UTF-8 input yields a
/// document, with no unconsumed remainder.
pub fn parse_text_gemini(input: &str) -> (r: Document)
    ensures
        r@ == spec_parse_doc(input@),
{
    let v = to_chars(input);
    let mut lines: Vec<Line> = Vec::new();
    let mut pos: usize = 0;
    proof {
        assert(v@.subrange(0, v@.len() as int) =~= input@);
        assert(Seq::new(lines@.len(), |q: int| lines@[q]@) + spec_parse_doc(input@)
            =~= spec_parse_doc(input@));
    }
    loop
        invariant
            v@ == input@,
            pos <= v@.len(),
            spec_parse_doc(input@) == Seq::new(lines@.len(), |q: int| lines@[q]@)
                + spec_parse_doc(v@.subrange(pos as int, v@.len() as int)),
        ensures
            pos == v@.len(),
            spec_parse_doc(input@) == Seq::new(lines@.len(), |q: int| lines@[q]@),
        decreases v@.len() - pos,
    {
        if pos >= v.len() {
            proof {
                let vs = Seq::new(lines@.len(), |q: int| lines@[q]@);
                assert(spec_parse_doc(v@.subrange(pos as int, v@.len() as int))
                    == Seq::<LineView>::empty());
                assert(vs + Seq::<LineView>::empty() =~= vs);
            }
            break ;
        }
        let ghost sub = v@.subrange(pos as int, v@.len() as int);
        let ghost old_lines = lines@;
        let (next, line) = parse_line_at(input, &v, pos);
        lines.push(line);
        proof {
            let tail = v@.subrange(next as int, v@.len() as int);
            assert(spec_parse_doc(sub) == seq![spec_parse_line(sub).0] + spec_parse_doc(tail));
            let vs_old = Seq::new(old_lines.len(), |q: int| old_lines[q]@);
            let vs_new = Seq::new(lines@.len(), |q: int| lines@[q]@);
            assert(vs_new =~= vs_old.push(line@));
            assert(vs_old + (seq![line@] + spec_parse_doc(tail)) =~= vs_old.push(line@)
                + spec_parse_doc(tail));
        }
        pos = next;
    }
    let doc = Document_(lines);
    proof {
        assert(doc@ =~= Seq::new(doc.0@.len(), |q: int| doc.0@[q]@));
    }
    doc
}

} // verus!
