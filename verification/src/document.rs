//! The word-wrapping pass: a document's lines become screen lines, each
//! carrying a flag that is true exactly on the first screen row of its
//! source block.
//!
//! Wrapping is word-preserving and greedy: an emitted row spans whole
//! words of the payload, packed while the span still fits the effective
//! width; a word longer than the width stands alone on its row.  Every
//! emitted payload is a contiguous slice of its source payload.

use vstd::prelude::*;

use crate::codec::split_nl;
use crate::protocol::{Document_, Line, LineView, WrappedDocument};
use crate::text::{
    first_idx, is_ws, lemma_first_idx, lemma_first_idx_is, scan_nl, scan_non_ws, scan_ws, substr,
    to_chars,
};

verus! {

// ------------------------------------------------------------------
// Words and greedy grouping, at the spec level.
// ------------------------------------------------------------------
/// The whitespace-delimited words of `s` from position `from` on, as
/// (start, end) index pairs.
pub open spec fn spec_words(s: Seq<char>, from: int) -> Seq<(int, int)>
    decreases s.len() - from,
    when 0 <= from <= s.len()
    via spec_words_dec
{
    let b = first_idx(s, from, |c: char| !is_ws(c));
    if b >= s.len() {
        Seq::empty()
    } else {
        let e = first_idx(s, b, |c: char| is_ws(c));
        seq![(b, e)] + spec_words(s, e)
    }
}

#[via_fn]
proof fn spec_words_dec(s: Seq<char>, from: int) {
    let b = first_idx(s, from, |c: char| !is_ws(c));
    lemma_first_idx(s, from, |c: char| !is_ws(c));
    if b < s.len() {
        lemma_first_idx(s, b, |c: char| is_ws(c));
    }
}

/// Each word is a nonempty run of non-whitespace characters, and the
/// words stand in order, separated by whitespace.
pub proof fn lemma_words(s: Seq<char>, from: int)
    requires
        0 <= from <= s.len(),
    ensures
        forall|k: int|
            0 <= k < spec_words(s, from).len() ==> {
                let wd = #[trigger] spec_words(s, from)[k];
                &&& from <= wd.0 < wd.1 <= s.len()
                &&& forall|q: int| wd.0 <= q < wd.1 ==> !is_ws(#[trigger] s[q])
            },
        forall|k1: int, k2: int|
            0 <= k1 < k2 < spec_words(s, from).len() ==> #[trigger] spec_words(s, from)[k1].1
                <= #[trigger] spec_words(s, from)[k2].0,
    decreases s.len() - from,
{
    let pw = |c: char| !is_ws(c);
    let b = first_idx(s, from, pw);
    lemma_first_idx(s, from, pw);
    if b < s.len() {
        let e = first_idx(s, b, pw2());
        lemma_first_idx(s, b, pw2());
        assert(e > b) by {
            if e == b {
                assert(pw2()(s[b]));
            }
        }
        lemma_words(s, e);
        let ws = spec_words(s, from);
        let tail = spec_words(s, e);
        assert(ws == seq![(b, e)] + tail);
        assert(ws[0] == (b, e));
        assert(forall|k: int| 1 <= k < ws.len() ==> #[trigger] ws[k] == tail[k - 1]);
    }
}

/// The whitespace predicate as a named closure, so every use is the same
/// function value.
pub open spec fn pw2() -> spec_fn(char) -> bool {
    |c: char| is_ws(c)
}

/// Greedy extension: include following words while the span from word
/// `i`'s start still fits in `w` columns.
pub open spec fn extend_piece(ws: Seq<(int, int)>, i: int, j: int, w: int) -> int
    decreases ws.len() - j,
    when 0 <= i <= j < ws.len()
{
    if j + 1 < ws.len() && ws[j + 1].1 - ws[i].0 <= w {
        extend_piece(ws, i, j + 1, w)
    } else {
        j
    }
}

pub proof fn lemma_extend_piece(ws: Seq<(int, int)>, i: int, j: int, w: int)
    requires
        0 <= i <= j < ws.len(),
    ensures
        j <= extend_piece(ws, i, j, w) < ws.len(),
        extend_piece(ws, i, j, w) == j || ws[extend_piece(ws, i, j, w)].1 - ws[i].0 <= w,
    decreases ws.len() - j,
{
    if j + 1 < ws.len() && ws[j + 1].1 - ws[i].0 <= w {
        lemma_extend_piece(ws, i, j + 1, w);
    }
}

/// The greedy grouping of the word list into row spans.
pub open spec fn group_words(ws: Seq<(int, int)>, i: int, w: int) -> Seq<(int, int)>
    decreases ws.len() - i,
    when 0 <= i <= ws.len()
    via group_words_dec
{
    if i >= ws.len() {
        Seq::empty()
    } else {
        let j = extend_piece(ws, i, i, w);
        seq![(ws[i].0, ws[j].1)] + group_words(ws, j + 1, w)
    }
}

#[via_fn]
proof fn group_words_dec(ws: Seq<(int, int)>, i: int, w: int) {
    if i < ws.len() {
        lemma_extend_piece(ws, i, i, w);
    }
}

/// A row span is a word range: it starts a word and ends a word, and it
/// fits in `w` unless it is a single word.
pub open spec fn span_ok(ws: Seq<(int, int)>, sp: (int, int), w: int) -> bool {
    exists|i: int, j: int|
        0 <= i <= j < ws.len() && sp == (#[trigger] ws[i].0, #[trigger] ws[j].1) && (i == j || sp.1
            - sp.0 <= w)
}

pub proof fn lemma_group_spans(ws: Seq<(int, int)>, i0: int, w: int)
    requires
        0 <= i0 <= ws.len(),
    ensures
        forall|q: int|
            0 <= q < group_words(ws, i0, w).len() ==> span_ok(
                ws,
                #[trigger] group_words(ws, i0, w)[q],
                w,
            ),
    decreases ws.len() - i0,
{
    if i0 < ws.len() {
        let j = extend_piece(ws, i0, i0, w);
        lemma_extend_piece(ws, i0, i0, w);
        lemma_group_spans(ws, j + 1, w);
        let g = group_words(ws, i0, w);
        assert(g == seq![(ws[i0].0, ws[j].1)] + group_words(ws, j + 1, w));
        assert(span_ok(ws, g[0], w)) by {
            assert(0 <= i0 <= j < ws.len() && g[0] == (ws[i0].0, ws[j].1) && (i0 == j || g[0].1
                - g[0].0 <= w));
        }
        assert(forall|q: int| 1 <= q < g.len() ==> #[trigger] g[q] == group_words(ws, j + 1, w)[q
            - 1]);
    }
}

/// The row spans of wrapping payload `s` at width `w`.
pub open spec fn wrap_spans(s: Seq<char>, w: int) -> Seq<(int, int)> {
    group_words(spec_words(s, 0), 0, w)
}

/// The slices of `s` named by a span list.
pub open spec fn spans_text(s: Seq<char>, sps: Seq<(int, int)>) -> Seq<Seq<char>> {
    sps.map_values(|sp: (int, int)| s.subrange(sp.0, sp.1))
}

/// The emitted row payloads: each span's slice of the source payload.
pub open spec fn spec_wrap(s: Seq<char>, w: int) -> Seq<Seq<char>> {
    spans_text(s, wrap_spans(s, w))
}

/// Every emitted row of a wrapped payload is a contiguous slice of the
/// payload, and fits in `w` columns unless it is one unbreakable word.
pub proof fn lemma_wrap_props(s: Seq<char>, w: int)
    ensures
        forall|q: int|
            0 <= q < spec_wrap(s, w).len() ==> {
                let sp = #[trigger] wrap_spans(s, w)[q];
                &&& 0 <= sp.0 <= sp.1 <= s.len()
                &&& spec_wrap(s, w)[q] == s.subrange(sp.0, sp.1)
                &&& (sp.1 - sp.0 <= w || forall|k: int|
                    sp.0 <= k < sp.1 ==> !is_ws(#[trigger] s[k]))
            },
{
    let ws = spec_words(s, 0);
    lemma_words(s, 0);
    lemma_group_spans(ws, 0, w);
    assert forall|q: int| 0 <= q < spec_wrap(s, w).len() implies {
        let sp = #[trigger] wrap_spans(s, w)[q];
        &&& 0 <= sp.0 <= sp.1 <= s.len()
        &&& spec_wrap(s, w)[q] == s.subrange(sp.0, sp.1)
        &&& (sp.1 - sp.0 <= w || forall|k: int| sp.0 <= k < sp.1 ==> !is_ws(#[trigger] s[k]))
    } by {
        let sp = wrap_spans(s, w)[q];
        assert(span_ok(ws, sp, w));
        let (i, j) = choose|i: int, j: int|
            0 <= i <= j < ws.len() && sp == (#[trigger] ws[i].0, #[trigger] ws[j].1) && (i == j
                || sp.1 - sp.0 <= w);
        assert(ws[i].0 < ws[i].1 <= s.len());
        assert(ws[j].0 < ws[j].1 <= s.len());
        if i < j {
            assert(ws[i].1 <= ws[j].0);
        }
        assert(sp.0 <= sp.1);
        if i == j && !(sp.1 - sp.0 <= w) {
            assert(forall|k: int| sp.0 <= k < sp.1 ==> !is_ws(#[trigger] s[k]));
        }
    }
}

// ------------------------------------------------------------------
// One source line to its screen rows.
// ------------------------------------------------------------------
/// Rows for a wrapped payload: one per piece, the first flagged; an empty
/// payload still yields one empty row so the block is represented.
pub open spec fn rows_of(ps: Seq<Seq<char>>, f: spec_fn(Seq<char>) -> LineView) -> Seq<
    (LineView, bool),
> {
    if ps.len() == 0 {
        seq![(f(Seq::empty()), true)]
    } else {
        Seq::new(ps.len(), |i: int| (f(ps[i]), i == 0))
    }
}

/// The effective wrap width of each variant leaves room for its prefix.
pub open spec fn spec_line_wrap(l: LineView, w: int) -> Seq<(LineView, bool)> {
    match l {
        LineView::Text(t) => rows_of(spec_wrap(t, w), |p: Seq<char>| LineView::Text(p)),
        LineView::BareLink(u) => seq![(LineView::BareLink(u), true)],
        LineView::NamedLink { url, name } => rows_of(
            spec_wrap(name, w - 3),
            |p: Seq<char>| LineView::NamedLink { url, name: p },
        ),
        LineView::Pre { alt, text } => Seq::new(
            split_nl(text).len(),
            |i: int| (LineView::Pre { alt, text: split_nl(text)[i] }, i == 0),
        ),
        LineView::H1(t) => rows_of(spec_wrap(t, w - 2), |p: Seq<char>| LineView::H1(p)),
        LineView::H2(t) => rows_of(spec_wrap(t, w - 3), |p: Seq<char>| LineView::H2(p)),
        LineView::H3(t) => rows_of(spec_wrap(t, w - 4), |p: Seq<char>| LineView::H3(p)),
        LineView::List(t) => rows_of(spec_wrap(t, w - 2), |p: Seq<char>| LineView::List(p)),
        LineView::Quote(t) => rows_of(spec_wrap(t, w - 2), |p: Seq<char>| LineView::Quote(p)),
    }
}

/// The whole document's screen rows, in source order.
pub open spec fn spec_word_wrap(d: Seq<LineView>, w: int) -> Seq<(LineView, bool)>
    decreases d.len(),
{
    if d.len() == 0 {
        Seq::empty()
    } else {
        spec_line_wrap(d[0], w) + spec_word_wrap(d.drop_first(), w)
    }
}

pub proof fn lemma_word_wrap_push(d: Seq<LineView>, l: LineView, w: int)
    ensures
        spec_word_wrap(d.push(l), w) == spec_word_wrap(d, w) + spec_line_wrap(l, w),
    decreases d.len(),
{
    if d.len() == 0 {
        assert(d.push(l).drop_first() =~= Seq::<LineView>::empty());
        assert(d.push(l)[0] == l);
        assert(spec_word_wrap(Seq::<LineView>::empty(), w) == Seq::<(LineView, bool)>::empty());
        assert(spec_word_wrap(d.push(l), w) == spec_line_wrap(l, w) + Seq::<(
            LineView,
            bool,
        )>::empty());
        assert(spec_line_wrap(l, w) + Seq::<(LineView, bool)>::empty() =~= spec_line_wrap(l, w));
        assert(Seq::<(LineView, bool)>::empty() + spec_line_wrap(l, w) =~= spec_line_wrap(l, w));
    } else {
        lemma_word_wrap_push(d.drop_first(), l, w);
        assert(d.push(l).drop_first() =~= d.drop_first().push(l));
        assert(d.push(l)[0] == d[0]);
        assert(spec_line_wrap(d[0], w) + (spec_word_wrap(d.drop_first(), w) + spec_line_wrap(l, w))
            =~= (spec_line_wrap(d[0], w) + spec_word_wrap(d.drop_first(), w)) + spec_line_wrap(
            l,
            w,
        ));
    }
}

// ------------------------------------------------------------------
// The executable wrapper.
// ------------------------------------------------------------------
/// The word spans of `v` as the spec sees them.
pub open spec fn word_view(wv: Seq<(usize, usize)>) -> Seq<(int, int)> {
    wv.map_values(|t: (usize, usize)| (t.0 as int, t.1 as int))
}

/// Collect the whitespace-delimited word spans of `s`.
fn find_words(s: &str, v: &Vec<char>) -> (r: Vec<(usize, usize)>)
    requires
        v@ == s@,
    ensures
        word_view(r@) == spec_words(s@, 0),
{
    let mut words: Vec<(usize, usize)> = Vec::new();
    let mut i: usize = 0;
    proof {
        assert(word_view(words@) + spec_words(s@, 0) =~= spec_words(s@, 0));
    }
    loop
        invariant_except_break
            spec_words(s@, 0) == word_view(words@) + spec_words(s@, i as int),
        invariant
            v@ == s@,
            i <= v@.len(),
        ensures
            word_view(words@) == spec_words(s@, 0),
        decreases v@.len() - i,
    {
        let b = scan_non_ws(v, i);
        proof {
            lemma_first_idx_is(s@, i as int, |c: char| !is_ws(c), b as int);
        }
        if b >= v.len() {
            proof {
                assert(spec_words(s@, i as int) == Seq::<(int, int)>::empty());
                assert(word_view(words@) + Seq::<(int, int)>::empty() =~= word_view(words@));
            }
            break ;
        }
        let e = scan_ws(v, b);
        proof {
            lemma_first_idx_is(s@, b as int, pw2(), e as int);
            assert(first_idx(s@, b as int, |c: char| is_ws(c)) == e as int);
            assert(spec_words(s@, i as int) == seq![(b as int, e as int)] + spec_words(
                s@,
                e as int,
            ));
        }
        let ghost old_words = words@;
        words.push((b, e));
        proof {
            assert(word_view(words@) =~= word_view(old_words).push((b as int, e as int)));
            assert(word_view(old_words) + (seq![(b as int, e as int)] + spec_words(s@, e as int))
                =~= word_view(old_words).push((b as int, e as int)) + spec_words(s@, e as int));
        }
        assert(e > b) by {
            if e == b {
                assert(is_ws(s@[b as int]));
            }
        }
        i = e;
    }
    words
}

/// Wrap one payload at width `w`: the emitted pieces in order.
pub fn wrap_payload(s: &str, w: usize) -> (r: Vec<String>)
    ensures
        Seq::new(r@.len(), |q: int| r@[q]@) == spec_wrap(s@, w as int),
{
    let v = to_chars(s);
    let words = find_words(s, &v);
    let ghost ws = spec_words(s@, 0);
    proof {
        lemma_words(s@, 0);
    }
    let mut out: Vec<String> = Vec::new();
    let ghost mut spans: Seq<(int, int)> = Seq::empty();
    let mut i: usize = 0;
    proof {
        assert(spans + group_words(ws, 0, w as int) =~= group_words(ws, 0, w as int));
    }
    loop
        invariant_except_break
            group_words(ws, 0, w as int) == spans + group_words(ws, i as int, w as int),
        invariant
            v@ == s@,
            ws == spec_words(s@, 0),
            word_view(words@) == ws,
            i <= words@.len(),
            Seq::new(out@.len(), |q: int| out@[q]@) == spans_text(s@, spans),
        ensures
            Seq::new(out@.len(), |q: int| out@[q]@) == spans_text(
                s@,
                group_words(ws, 0, w as int),
            ),
        decreases words@.len() - i,
    {
        if i >= words.len() {
            proof {
                assert(group_words(ws, i as int, w as int) == Seq::<(int, int)>::empty());
                assert(spans + Seq::<(int, int)>::empty() =~= spans);
            }
            break ;
        }
        let mut j = i;
        proof {
            lemma_extend_piece(ws, i as int, i as int, w as int);
        }
        loop
            invariant
                i <= j < words@.len(),
                ws == spec_words(s@, 0),
                word_view(words@) == ws,
                v@ == s@,
                extend_piece(ws, i as int, i as int, w as int) == extend_piece(
                    ws,
                    i as int,
                    j as int,
                    w as int,
                ),
            ensures
                i <= j < words@.len(),
                extend_piece(ws, i as int, i as int, w as int) == j as int,
            decreases words@.len() - j,
        {
            let wn = words.len();
            if j + 1 < wn {
                let b1 = words[i].0;
                let e2 = words[j + 1].1;
                proof {
                    lemma_words(s@, 0);
                    assert(ws[i as int] == (words@[i as int].0 as int, words@[i as int].1 as int));
                    assert(ws[(j + 1) as int] == (
                        words@[(j + 1) as int].0 as int,
                        words@[(j + 1) as int].1 as int,
                    ));
                    assert(spec_words(s@, 0)[i as int].1 == ws[i as int].1);
                    assert(spec_words(s@, 0)[(j + 1) as int].0 == ws[(j + 1) as int].0);
                    assert(spec_words(s@, 0)[i as int].0 < spec_words(s@, 0)[i as int].1);
                    if (i as int) < (j + 1) as int {
                        assert(spec_words(s@, 0)[i as int].1 <= spec_words(s@, 0)[(j + 1) as int].0);
                        assert(ws[i as int].1 <= ws[(j + 1) as int].0);
                    }
                    assert(b1 as int <= e2 as int);
                }
                if e2 - b1 <= w {
                    j = j + 1;
                    continue ;
                }
            }
            proof {
                assert(extend_piece(ws, i as int, j as int, w as int) == j as int);
            }
            break ;
        }
        let a = words[i].0;
        let b = words[j].1;
        proof {
            lemma_words(s@, 0);
            assert(ws[i as int] == (words@[i as int].0 as int, words@[i as int].1 as int));
            assert(ws[j as int] == (words@[j as int].0 as int, words@[j as int].1 as int));
            assert(spec_words(s@, 0)[i as int].0 < spec_words(s@, 0)[i as int].1);
            assert(spec_words(s@, 0)[j as int].0 < spec_words(s@, 0)[j as int].1);
            assert(spec_words(s@, 0)[j as int].1 <= s@.len());
            assert(spec_words(s@, 0)[i as int].0 >= 0);
            if i < j {
                assert(spec_words(s@, 0)[i as int].1 <= spec_words(s@, 0)[j as int].0);
                assert(ws[i as int].1 <= ws[j as int].0);
            }
            assert(a as int <= b as int);
            assert(b as int <= s@.len());
            assert(a as int >= 0);
        }
        let piece = substr(s, a, b);
        let ghost old_out = out@;
        let ghost old_spans = spans;
        out.push(piece);
        proof {
            let jj = extend_piece(ws, i as int, i as int, w as int);
            assert(group_words(ws, i as int, w as int) == seq![(ws[i as int].0, ws[jj].1)]
                + group_words(ws, jj + 1, w as int));
            spans = spans.push((a as int, b as int));
            assert((ws[i as int].0, ws[jj].1) == (a as int, b as int));
            assert(old_spans + (seq![(a as int, b as int)] + group_words(ws, jj + 1, w as int))
                =~= spans + group_words(ws, jj + 1, w as int));
            assert forall|q: int| 0 <= q < out@.len() implies out@[q]@ == spans_text(
                s@,
                spans,
            )[q] by {
                assert(Seq::new(old_out.len(), |r: int| old_out[r]@).len() == old_out.len());
                assert(spans_text(s@, old_spans).len() == old_spans.len());
                assert(old_out.len() == old_spans.len());
                if q < out@.len() - 1 {
                    assert(out@[q] == old_out[q]);
                    assert(spans[q] == old_spans[q]);
                    assert(Seq::new(old_out.len(), |r: int| old_out[r]@)[q] == old_out[q]@);
                    assert(spans_text(s@, old_spans)[q] == s@.subrange(
                        old_spans[q].0,
                        old_spans[q].1,
                    ));
                    assert(spans_text(s@, spans)[q] == s@.subrange(spans[q].0, spans[q].1));
                } else {
                    assert(out@[q]@ == s@.subrange(a as int, b as int));
                    assert(spans[q] == (a as int, b as int));
                    assert(spans_text(s@, spans)[q] == s@.subrange(a as int, b as int));
                }
            }
            assert(Seq::new(out@.len(), |q: int| out@[q]@) =~= spans_text(s@, spans));
        }
        i = j + 1;
    }
    proof {
        assert(Seq::new(out@.len(), |q: int| out@[q]@) == spec_wrap(s@, w as int));
    }
    out
}

/// The payload-carrying variants that wrap without extra state.
enum PieceKind {
    Text,
    H1,
    H2,
    H3,
    List,
    Quote,
}

spec fn piece_view(k: PieceKind, p: Seq<char>) -> LineView {
    match k {
        PieceKind::Text => LineView::Text(p),
        PieceKind::H1 => LineView::H1(p),
        PieceKind::H2 => LineView::H2(p),
        PieceKind::H3 => LineView::H3(p),
        PieceKind::List => LineView::List(p),
        PieceKind::Quote => LineView::Quote(p),
    }
}

fn make_line(k: &PieceKind, p: String) -> (r: Line)
    ensures
        r@ == piece_view(*k, p@),
{
    match k {
        PieceKind::Text => Line::Text(p),
        PieceKind::H1 => Line::H1(p),
        PieceKind::H2 => Line::H2(p),
        PieceKind::H3 => Line::H3(p),
        PieceKind::List => Line::List(p),
        PieceKind::Quote => Line::Quote(p),
    }
}

/// Wrap a payload and flag the rows, building lines of the given kind.
fn wrap_kind(payload: &str, w: usize, k: PieceKind) -> (r: Vec<(Line, bool)>)
    ensures
        Seq::new(r@.len(), |q: int| r@[q]@) == rows_of(
            spec_wrap(payload@, w as int),
            |p: Seq<char>| piece_view(k, p),
        ),
{
    let ghost f = |p: Seq<char>| piece_view(k, p);
    let pieces = wrap_payload(payload, w);
    let ghost ps = spec_wrap(payload@, w as int);
    let mut rows: Vec<(Line, bool)> = Vec::new();
    if pieces.len() == 0 {
        rows.push((make_line(&k, String::new()), true));
        proof {
            assert(rows@.len() == 1);
            assert(rows@[0]@ == (f(Seq::<char>::empty()), true));
            assert(Seq::new(rows@.len(), |q: int| rows@[q]@) =~= rows_of(ps, f));
        }
        return rows;
    }
    let n = pieces.len();
    let mut i: usize = 0;
    while i < n
        invariant
            n == pieces@.len(),
            i <= n,
            n >= 1,
            Seq::new(pieces@.len(), |q: int| pieces@[q]@) == ps,
            rows@.len() == i,
            forall|q: int|
                0 <= q < i ==> #[trigger] rows@[q]@ == (piece_view(k, ps[q]), q == 0),
        decreases n - i,
    {
        let p = pieces[i].clone();
        proof {
            assert(pieces@[i as int]@ == ps[i as int]);
        }
        rows.push((make_line(&k, p), i == 0));
        proof {
            assert(rows@[i as int]@ == (piece_view(k, ps[i as int]), i == 0));
        }
        i = i + 1;
    }
    proof {
        assert(Seq::new(rows@.len(), |q: int| rows@[q]@) =~= rows_of(ps, f));
    }
    rows
}

impl Document_<Line> {
    /// The screen rows of one source line at the given width.
    pub fn line_wrap(line: &Line, width: usize) -> (r: Vec<(Line, bool)>)
        requires
            width >= 4,
        ensures
            Seq::new(r@.len(), |q: int| r@[q]@) == spec_line_wrap(line@, width as int),
    {
        match line {
            Line::Text(t) => {
                let r = wrap_kind(t.as_str(), width, PieceKind::Text);
                proof {
                    assert(Seq::new(r@.len(), |q: int| r@[q]@) =~= spec_line_wrap(
                        line@,
                        width as int,
                    ));
                }
                r
            },
            Line::H1(t) => {
                let r = wrap_kind(t.as_str(), width - 2, PieceKind::H1);
                proof {
                    assert(Seq::new(r@.len(), |q: int| r@[q]@) =~= spec_line_wrap(
                        line@,
                        width as int,
                    ));
                }
                r
            },
            Line::H2(t) => {
                let r = wrap_kind(t.as_str(), width - 3, PieceKind::H2);
                proof {
                    assert(Seq::new(r@.len(), |q: int| r@[q]@) =~= spec_line_wrap(
                        line@,
                        width as int,
                    ));
                }
                r
            },
            Line::H3(t) => {
                let r = wrap_kind(t.as_str(), width - 4, PieceKind::H3);
                proof {
                    assert(Seq::new(r@.len(), |q: int| r@[q]@) =~= spec_line_wrap(
                        line@,
                        width as int,
                    ));
                }
                r
            },
            Line::List(t) => {
                let r = wrap_kind(t.as_str(), width - 2, PieceKind::List);
                proof {
                    assert(Seq::new(r@.len(), |q: int| r@[q]@) =~= spec_line_wrap(
                        line@,
                        width as int,
                    ));
                }
                r
            },
            Line::Quote(t) => {
                let r = wrap_kind(t.as_str(), width - 2, PieceKind::Quote);
                proof {
                    assert(Seq::new(r@.len(), |q: int| r@[q]@) =~= spec_line_wrap(
                        line@,
                        width as int,
                    ));
                }
                r
            },
            Line::BareLink(u) => {
                let mut rows: Vec<(Line, bool)> = Vec::new();
                rows.push((Line::BareLink(u.clone()), true));
                proof {
                    assert(Seq::new(rows@.len(), |q: int| rows@[q]@) =~= spec_line_wrap(
                        line@,
                        width as int,
                    ));
                }
                rows
            },
            Line::NamedLink { url, name } => {
                let ghost f = |p: Seq<char>| LineView::NamedLink { url: url@, name: p };
                let pieces = wrap_payload(name.as_str(), width - 3);
                let ghost ps = spec_wrap(name@, width - 3);
                let mut rows: Vec<(Line, bool)> = Vec::new();
                if pieces.len() == 0 {
                    rows.push((Line::NamedLink { url: url.clone(), name: String::new() }, true));
                    proof {
                        assert(rows@[0]@ == (f(Seq::<char>::empty()), true));
                        assert(Seq::new(rows@.len(), |q: int| rows@[q]@) =~= spec_line_wrap(
                            line@,
                            width as int,
                        ));
                    }
                    return rows;
                }
                let n = pieces.len();
                let mut i: usize = 0;
                while i < n
                    invariant
                        n == pieces@.len(),
                        i <= n,
                        n >= 1,
                        Seq::new(pieces@.len(), |q: int| pieces@[q]@) == ps,
                        rows@.len() == i,
                        forall|q: int|
                            0 <= q < i ==> #[trigger] rows@[q]@ == (
                                LineView::NamedLink { url: url@, name: ps[q] },
                                q == 0,
                            ),
                    decreases n - i,
                {
                    let p = pieces[i].clone();
                    proof {
                        assert(pieces@[i as int]@ == ps[i as int]);
                    }
                    rows.push((Line::NamedLink { url: url.clone(), name: p }, i == 0));
                    proof {
                        assert(rows@[i as int]@ == (
                            LineView::NamedLink { url: url@, name: ps[i as int] },
                            i == 0,
                        ));
                    }
                    i = i + 1;
                }
                proof {
                    assert(Seq::new(rows@.len(), |q: int| rows@[q]@) =~= rows_of(ps, f));
                    assert(Seq::new(rows@.len(), |q: int| rows@[q]@) =~= spec_line_wrap(
                        line@,
                        width as int,
                    ));
                }
                rows
            },
            Line::Pre { alt, text } => {
                let v = to_chars(text.as_str());
                let ghost full = split_nl(text@);
                let ghost altv: Option<Seq<char>> = match alt {
                    Some(a) => Some(a@),
                    None => None,
                };
                let mut rows: Vec<(Line, bool)> = Vec::new();
                let ghost mut segs: Seq<Seq<char>> = Seq::empty();
                let mut i: usize = 0;
                proof {
                    assert(v@.subrange(0, v@.len() as int) =~= text@);
                    assert(segs + split_nl(text@) =~= split_nl(text@));
                }
                loop
                    invariant_except_break
                        full == segs + split_nl(v@.subrange(i as int, v@.len() as int)),
                    invariant
                        v@ == text@,
                        i <= v@.len(),
                        full == split_nl(text@),
                        altv == (match alt {
                            Some(a) => Some(a@),
                            None => None::<Seq<char>>,
                        }),
                        rows@.len() == segs.len(),
                        forall|q: int|
                            0 <= q < segs.len() ==> #[trigger] rows@[q]@ == (
                                LineView::Pre { alt: altv, text: segs[q] },
                                q == 0,
                            ),
                    ensures
                        segs == full,
                    decreases v@.len() - i,
                {
                    let ghost sub = v@.subrange(i as int, v@.len() as int);
                    let e = scan_nl(&v, i);
                    proof {
                        let p = |c: char| c == '\n';
                        assert forall|q: int| 0 <= q < e - i implies !p(sub[q]) by {
                            assert(sub[q] == v@[q + i]);
                        }
                        if e < v@.len() {
                            assert(sub[e - i] == v@[e as int]);
                        }
                        lemma_first_idx_is(sub, 0, p, e - i);
                    }
                    let piece = substr(text.as_str(), i, e);
                    proof {
                        assert(sub.subrange(0, e - i) =~= v@.subrange(i as int, e as int));
                    }
                    let alt2 = match alt {
                        Some(a) => Some(a.clone()),
                        None => None,
                    };
                    let first = rows.len() == 0;
                    rows.push((Line::Pre { alt: alt2, text: piece }, first));
                    let ghost old_segs = segs;
                    proof {
                        segs = segs.push(v@.subrange(i as int, e as int));
                        assert forall|q: int| 0 <= q < segs.len() implies #[trigger] rows@[q]@ == (
                            LineView::Pre { alt: altv, text: segs[q] },
                            q == 0,
                        ) by {
                            if q < segs.len() - 1 {
                                assert(segs[q] == old_segs[q]);
                            } else {
                                assert(rows@[q]@ == (
                                    LineView::Pre { alt: altv, text: v@.subrange(i as int, e as int) },
                                    q == 0,
                                ));
                            }
                        }
                    }
                    if e >= v.len() {
                        proof {
                            assert(split_nl(sub) == seq![sub]);
                            assert(sub =~= v@.subrange(i as int, e as int));
                            assert(old_segs + seq![sub] =~= segs);
                            assert(segs == full);
                        }
                        break ;
                    }
                    proof {
                        assert(split_nl(sub) == seq![sub.subrange(0, e - i)] + split_nl(
                            sub.subrange(e - i + 1, sub.len() as int),
                        ));
                        assert(sub.subrange(e - i + 1, sub.len() as int) =~= v@.subrange(
                            (e + 1) as int,
                            v@.len() as int,
                        ));
                        assert(old_segs + (seq![sub.subrange(0, e - i)] + split_nl(
                            v@.subrange((e + 1) as int, v@.len() as int),
                        )) =~= segs + split_nl(v@.subrange((e + 1) as int, v@.len() as int)));
                    }
                    i = e + 1;
                }
                proof {
                    assert(Seq::new(rows@.len(), |q: int| rows@[q]@) =~= spec_line_wrap(
                        line@,
                        width as int,
                    ));
                }
                rows
            },
        }
    }

    /// Word-wrap the whole document into screen rows.
    pub fn word_wrap(&self, width: usize) -> (r: WrappedDocument)
        requires
            width >= 4,
        ensures
            r@ == spec_word_wrap(self@, width as int),
    {
        let mut rows: Vec<(Line, bool)> = Vec::new();
        let n = self.0.len();
        let mut i: usize = 0;
        proof {
            assert(spec_word_wrap(self@.subrange(0, 0), width as int)
                == Seq::<(LineView, bool)>::empty()) by {
                assert(self@.subrange(0, 0).len() == 0);
            }
            assert(Seq::new(rows@.len(), |q: int| rows@[q]@) =~= spec_word_wrap(
                self@.subrange(0, 0),
                width as int,
            ));
        }
        while i < n
            invariant
                width >= 4,
                n == self.0@.len(),
                i <= n,
                Seq::new(rows@.len(), |q: int| rows@[q]@) == spec_word_wrap(
                    self@.subrange(0, i as int),
                    width as int,
                ),
            decreases n - i,
        {
            let mut seg = Self::line_wrap(&self.0[i], width);
            let ghost old_rows = rows@;
            let ghost segv = seg@;
            rows.append(&mut seg);
            proof {
                lemma_word_wrap_push(self@.subrange(0, i as int), self@[i as int], width as int);
                assert(self@.subrange(0, (i + 1) as int) =~= self@.subrange(0, i as int).push(
                    self@[i as int],
                ));
                assert(self@[i as int] == self.0@[i as int]@);
                assert(Seq::new(rows@.len(), |q: int| rows@[q]@) =~= spec_word_wrap(
                    self@.subrange(0, i as int),
                    width as int,
                ) + Seq::new(segv.len(), |q: int| segv[q]@));
            }
            i = i + 1;
        }
        proof {
            assert(self@.subrange(0, n as int) =~= self@);
        }
        let doc = Document_(rows);
        proof {
            assert(doc@ =~= Seq::new(doc.0@.len(), |q: int| doc.0@[q]@));
        }
        doc
    }

    /// One screen row per source line, unwrapped: the placeholder layout
    /// used before the first resize supplies a real width.
    pub fn dummy_wrap(&self) -> (r: WrappedDocument)
        ensures
            r@ == Seq::new(self@.len(), |q: int| (self@[q], true)),
    {
        let mut rows: Vec<(Line, bool)> = Vec::new();
        let n = self.0.len();
        let mut i: usize = 0;
        while i < n
            invariant
                n == self.0@.len(),
                i <= n,
                rows@.len() == i,
                forall|q: int|
                    0 <= q < i ==> #[trigger] rows@[q]@ == (self.0@[q]@, true),
            decreases n - i,
        {
            rows.push((self.0[i].duplicate(), true));
            i = i + 1;
        }
        let doc = Document_(rows);
        proof {
            assert(doc@ =~= Seq::new(self@.len(), |q: int| (self@[q], true)));
        }
        doc
    }
}

// ------------------------------------------------------------------
// Laws of the wrapper.
// ------------------------------------------------------------------
/// Every source line yields at least one screen row; exactly the first
/// row of each block carries the flag.
pub proof fn lemma_line_wrap_first(l: LineView, w: int)
    ensures
        spec_line_wrap(l, w).len() >= 1,
        spec_line_wrap(l, w)[0].1 == true,
        forall|j: int| 1 <= j < spec_line_wrap(l, w).len() ==> !(#[trigger] spec_line_wrap(l, w)[j].1),
{
    match l {
        LineView::Pre { alt, text } => {
            crate::codec::lemma_split_lines(text);
        },
        _ => {},
    }
}

/// An empty text line still yields exactly one empty screen row, flagged
/// as first.
pub proof fn lemma_empty_text_row(w: int)
    ensures
        spec_line_wrap(LineView::Text(Seq::empty()), w) == seq![
            (LineView::Text(Seq::<char>::empty()), true),
        ],
{
    let s = Seq::<char>::empty();
    lemma_first_idx(s, 0, |c: char| !is_ws(c));
    assert(spec_words(s, 0) == Seq::<(int, int)>::empty());
    assert(group_words(spec_words(s, 0), 0, w) == Seq::<(int, int)>::empty());
    assert(spec_wrap(s, w) =~= Seq::<Seq<char>>::empty());
}

/// How many screen rows carry the first-of-block flag.
pub open spec fn count_firsts(rows: Seq<(LineView, bool)>) -> int
    decreases rows.len(),
{
    if rows.len() == 0 {
        0
    } else {
        (if rows[0].1 {
            1int
        } else {
            0int
        }) + count_firsts(rows.drop_first())
    }
}

proof fn lemma_count_firsts_concat(a: Seq<(LineView, bool)>, b: Seq<(LineView, bool)>)
    ensures
        count_firsts(a + b) == count_firsts(a) + count_firsts(b),
    decreases a.len(),
{
    if a.len() == 0 {
        assert(a + b =~= b);
    } else {
        assert((a + b).drop_first() =~= a.drop_first() + b);
        assert((a + b)[0] == a[0]);
        lemma_count_firsts_concat(a.drop_first(), b);
    }
}

proof fn lemma_count_firsts_none(rows: Seq<(LineView, bool)>)
    requires
        forall|j: int| 0 <= j < rows.len() ==> !(#[trigger] rows[j].1),
    ensures
        count_firsts(rows) == 0,
    decreases rows.len(),
{
    if rows.len() > 0 {
        assert(forall|j: int|
            0 <= j < rows.drop_first().len() ==> #[trigger] rows.drop_first()[j] == rows[j + 1]);
        lemma_count_firsts_none(rows.drop_first());
    }
}

/// One source line's rows carry exactly one first-of-block flag.
proof fn lemma_segment_one_first(l: LineView, w: int)
    ensures
        count_firsts(spec_line_wrap(l, w)) == 1,
{
    lemma_line_wrap_first(l, w);
    let seg = spec_line_wrap(l, w);
    assert(forall|j: int|
        0 <= j < seg.drop_first().len() ==> #[trigger] seg.drop_first()[j] == seg[j + 1]);
    lemma_count_firsts_none(seg.drop_first());
}

/// Over the whole document: exactly one screen row per source block has
/// the first-of-block flag, and — by `lemma_line_wrap_first` — it is the
/// earliest row of its block.
pub proof fn lemma_one_first_per_block(d: Seq<LineView>, w: int)
    ensures
        count_firsts(spec_word_wrap(d, w)) == d.len(),
    decreases d.len(),
{
    if d.len() > 0 {
        lemma_segment_one_first(d[0], w);
        lemma_count_firsts_concat(spec_line_wrap(d[0], w), spec_word_wrap(d.drop_first(), w));
        lemma_one_first_per_block(d.drop_first(), w);
    }
}

/// The payload a line variant hands to the wrapper.
pub open spec fn line_payload(l: LineView) -> Seq<char> {
    match l {
        LineView::Text(t) => t,
        LineView::BareLink(u) => u,
        LineView::NamedLink { url, name } => name,
        LineView::Pre { alt, text } => text,
        LineView::H1(t) => t,
        LineView::H2(t) => t,
        LineView::H3(t) => t,
        LineView::List(t) => t,
        LineView::Quote(t) => t,
    }
}

/// The width a variant wraps at: the full width less its prefix.
pub open spec fn effective_width(l: LineView, w: int) -> int {
    match l {
        LineView::Text(t) => w,
        LineView::BareLink(u) => w,
        LineView::NamedLink { url, name } => w - 3,
        LineView::Pre { alt, text } => w,
        LineView::H1(t) => w - 2,
        LineView::H2(t) => w - 3,
        LineView::H3(t) => w - 4,
        LineView::List(t) => w - 2,
        LineView::Quote(t) => w - 2,
    }
}

/// `piece` is a contiguous slice of `src`.
pub open spec fn is_slice_of(src: Seq<char>, piece: Seq<char>) -> bool {
    exists|a: int, b: int| 0 <= a <= b <= src.len() && piece == #[trigger] src.subrange(a, b)
}

/// Every line of a split text is a contiguous slice of the text.
pub proof fn lemma_split_zero_copy(s: Seq<char>)
    ensures
        forall|i: int|
            0 <= i < split_nl(s).len() ==> is_slice_of(s, #[trigger] split_nl(s)[i]),
    decreases s.len(),
{
    let p = |c: char| c == '\n';
    lemma_first_idx(s, 0, p);
    let e = first_idx(s, 0, p);
    if e == s.len() {
        assert(split_nl(s) == seq![s]);
        assert(s == s.subrange(0, s.len() as int)) by {
            assert(s =~= s.subrange(0, s.len() as int));
        }
        assert(is_slice_of(s, split_nl(s)[0]));
    } else {
        let tail = s.subrange(e + 1, s.len() as int);
        lemma_split_zero_copy(tail);
        assert(split_nl(s) == seq![s.subrange(0, e)] + split_nl(tail));
        assert forall|i: int| 0 <= i < split_nl(s).len() implies is_slice_of(
            s,
            #[trigger] split_nl(s)[i],
        ) by {
            if i == 0 {
                assert(split_nl(s)[0] == s.subrange(0, e));
                assert(is_slice_of(s, s.subrange(0, e)));
            } else {
                let piece = split_nl(s)[i];
                assert(piece == split_nl(tail)[i - 1]);
                assert(is_slice_of(tail, piece));
                let (a, b) = choose|a: int, b: int|
                    0 <= a <= b <= tail.len() && piece == #[trigger] tail.subrange(a, b);
                assert(tail.subrange(a, b) =~= s.subrange(a + e + 1, b + e + 1));
                assert(piece == s.subrange(a + e + 1, b + e + 1));
                assert(is_slice_of(s, piece));
            }
        }
    }
}

/// Every piece a wrapped payload yields is one of its slices, and so is
/// the empty payload of the fallback row.
proof fn lemma_pieces_are_slices(src: Seq<char>, eff: int)
    ensures
        forall|j: int|
            0 <= j < spec_wrap(src, eff).len() ==> is_slice_of(
                src,
                #[trigger] spec_wrap(src, eff)[j],
            ),
        is_slice_of(src, Seq::<char>::empty()),
{
    lemma_wrap_props(src, eff);
    assert(Seq::<char>::empty() =~= src.subrange(0, 0));
    assert(is_slice_of(src, src.subrange(0, 0)));
    assert forall|j: int| 0 <= j < spec_wrap(src, eff).len() implies is_slice_of(
        src,
        #[trigger] spec_wrap(src, eff)[j],
    ) by {
        let sp = wrap_spans(src, eff)[j];
        assert(spec_wrap(src, eff)[j] == src.subrange(sp.0, sp.1));
        assert(is_slice_of(src, spec_wrap(src, eff)[j]));
    }
}

/// Every screen row's payload is a contiguous slice of its source line's
/// payload: wrapping copies nothing but boundaries.
pub proof fn lemma_line_wrap_zero_copy(l: LineView, w: int)
    ensures
        forall|j: int|
            0 <= j < spec_line_wrap(l, w).len() ==> is_slice_of(
                line_payload(l),
                crate::view::row_payload_view(#[trigger] spec_line_wrap(l, w)[j].0),
            ),
{
    match l {
        LineView::BareLink(u) => {
            assert(u =~= u.subrange(0, u.len() as int));
            assert(is_slice_of(u, u.subrange(0, u.len() as int)));
            assert(spec_line_wrap(l, w)[0].0 == LineView::BareLink(u));
        },
        LineView::Pre { alt, text } => {
            lemma_split_zero_copy(text);
            assert forall|j: int| 0 <= j < spec_line_wrap(l, w).len() implies is_slice_of(
                line_payload(l),
                crate::view::row_payload_view(#[trigger] spec_line_wrap(l, w)[j].0),
            ) by {
                assert(spec_line_wrap(l, w)[j].0 == LineView::Pre {
                    alt,
                    text: split_nl(text)[j],
                });
                assert(is_slice_of(text, split_nl(text)[j]));
            }
        },
        LineView::Text(p) => {
            lemma_pieces_are_slices(p, w - 0);
            let ps = spec_wrap(p, w - 0);
            assert forall|j: int| 0 <= j < spec_line_wrap(l, w).len() implies is_slice_of(
                line_payload(l),
                crate::view::row_payload_view(#[trigger] spec_line_wrap(l, w)[j].0),
            ) by {
                if ps.len() == 0 {
                    assert(crate::view::row_payload_view(spec_line_wrap(l, w)[j].0)
                        == Seq::<char>::empty());
                } else {
                    assert(crate::view::row_payload_view(spec_line_wrap(l, w)[j].0) == ps[j]);
                }
            }
        },
        LineView::NamedLink { url, name } => {
            lemma_pieces_are_slices(name, w - 3);
            let ps = spec_wrap(name, w - 3);
            assert forall|j: int| 0 <= j < spec_line_wrap(l, w).len() implies is_slice_of(
                line_payload(l),
                crate::view::row_payload_view(#[trigger] spec_line_wrap(l, w)[j].0),
            ) by {
                if ps.len() == 0 {
                    assert(crate::view::row_payload_view(spec_line_wrap(l, w)[j].0)
                        == Seq::<char>::empty());
                } else {
                    assert(crate::view::row_payload_view(spec_line_wrap(l, w)[j].0) == ps[j]);
                }
            }
        },
        LineView::H1(p) => {
            lemma_pieces_are_slices(p, w - 2);
            let ps = spec_wrap(p, w - 2);
            assert forall|j: int| 0 <= j < spec_line_wrap(l, w).len() implies is_slice_of(
                line_payload(l),
                crate::view::row_payload_view(#[trigger] spec_line_wrap(l, w)[j].0),
            ) by {
                if ps.len() == 0 {
                    assert(crate::view::row_payload_view(spec_line_wrap(l, w)[j].0)
                        == Seq::<char>::empty());
                } else {
                    assert(crate::view::row_payload_view(spec_line_wrap(l, w)[j].0) == ps[j]);
                }
            }
        },
        LineView::H2(p) => {
            lemma_pieces_are_slices(p, w - 3);
            let ps = spec_wrap(p, w - 3);
            assert forall|j: int| 0 <= j < spec_line_wrap(l, w).len() implies is_slice_of(
                line_payload(l),
                crate::view::row_payload_view(#[trigger] spec_line_wrap(l, w)[j].0),
            ) by {
                if ps.len() == 0 {
                    assert(crate::view::row_payload_view(spec_line_wrap(l, w)[j].0)
                        == Seq::<char>::empty());
                } else {
                    assert(crate::view::row_payload_view(spec_line_wrap(l, w)[j].0) == ps[j]);
                }
            }
        },
        LineView::H3(p) => {
            lemma_pieces_are_slices(p, w - 4);
            let ps = spec_wrap(p, w - 4);
            assert forall|j: int| 0 <= j < spec_line_wrap(l, w).len() implies is_slice_of(
                line_payload(l),
                crate::view::row_payload_view(#[trigger] spec_line_wrap(l, w)[j].0),
            ) by {
                if ps.len() == 0 {
                    assert(crate::view::row_payload_view(spec_line_wrap(l, w)[j].0)
                        == Seq::<char>::empty());
                } else {
                    assert(crate::view::row_payload_view(spec_line_wrap(l, w)[j].0) == ps[j]);
                }
            }
        },
        LineView::List(p) => {
            lemma_pieces_are_slices(p, w - 2);
            let ps = spec_wrap(p, w - 2);
            assert forall|j: int| 0 <= j < spec_line_wrap(l, w).len() implies is_slice_of(
                line_payload(l),
                crate::view::row_payload_view(#[trigger] spec_line_wrap(l, w)[j].0),
            ) by {
                if ps.len() == 0 {
                    assert(crate::view::row_payload_view(spec_line_wrap(l, w)[j].0)
                        == Seq::<char>::empty());
                } else {
                    assert(crate::view::row_payload_view(spec_line_wrap(l, w)[j].0) == ps[j]);
                }
            }
        },
        LineView::Quote(p) => {
            lemma_pieces_are_slices(p, w - 2);
            let ps = spec_wrap(p, w - 2);
            assert forall|j: int| 0 <= j < spec_line_wrap(l, w).len() implies is_slice_of(
                line_payload(l),
                crate::view::row_payload_view(#[trigger] spec_line_wrap(l, w)[j].0),
            ) by {
                if ps.len() == 0 {
                    assert(crate::view::row_payload_view(spec_line_wrap(l, w)[j].0)
                        == Seq::<char>::empty());
                } else {
                    assert(crate::view::row_payload_view(spec_line_wrap(l, w)[j].0) == ps[j]);
                }
            }
        },
    }
}

/// For the wrapping variants, every screen row's payload fits the
/// variant's effective width, as long as no word of the payload exceeds
/// that width.
pub proof fn lemma_line_wrap_width(l: LineView, w: int)
    requires
        w >= 4,
        !(l is BareLink),
        !(l is Pre),
        forall|k: int|
            0 <= k < spec_words(line_payload(l), 0).len() ==> (#[trigger] spec_words(
                line_payload(l),
                0,
            )[k]).1 - spec_words(line_payload(l), 0)[k].0 <= effective_width(l, w),
    ensures
        forall|j: int|
            0 <= j < spec_line_wrap(l, w).len() ==> crate::view::row_payload_view(
                #[trigger] spec_line_wrap(l, w)[j].0,
            ).len() <= effective_width(l, w),
{
    let src = line_payload(l);
    let eff = effective_width(l, w);
    lemma_wrap_width(src, eff);
    assert forall|j: int| 0 <= j < spec_line_wrap(l, w).len() implies crate::view::row_payload_view(
        #[trigger] spec_line_wrap(l, w)[j].0,
    ).len() <= eff by {
        let ps = spec_wrap(src, eff);
        match l {
            LineView::Text(t) => {
                if ps.len() == 0 {
                } else {
                    assert(crate::view::row_payload_view(spec_line_wrap(l, w)[j].0) == ps[j]);
                }
            },
            LineView::NamedLink { url, name } => {
                if ps.len() == 0 {
                } else {
                    assert(crate::view::row_payload_view(spec_line_wrap(l, w)[j].0) == ps[j]);
                }
            },
            LineView::H1(t) => {
                if ps.len() == 0 {
                } else {
                    assert(crate::view::row_payload_view(spec_line_wrap(l, w)[j].0) == ps[j]);
                }
            },
            LineView::H2(t) => {
                if ps.len() == 0 {
                } else {
                    assert(crate::view::row_payload_view(spec_line_wrap(l, w)[j].0) == ps[j]);
                }
            },
            LineView::H3(t) => {
                if ps.len() == 0 {
                } else {
                    assert(crate::view::row_payload_view(spec_line_wrap(l, w)[j].0) == ps[j]);
                }
            },
            LineView::List(t) => {
                if ps.len() == 0 {
                } else {
                    assert(crate::view::row_payload_view(spec_line_wrap(l, w)[j].0) == ps[j]);
                }
            },
            LineView::Quote(t) => {
                if ps.len() == 0 {
                } else {
                    assert(crate::view::row_payload_view(spec_line_wrap(l, w)[j].0) == ps[j]);
                }
            },
            _ => {},
        }
    }
}

/// If no word of the payload is longer than `w`, every wrapped row fits
/// in `w` columns.
pub proof fn lemma_wrap_width(s: Seq<char>, w: int)
    requires
        forall|k: int|
            0 <= k < spec_words(s, 0).len() ==> (#[trigger] spec_words(s, 0)[k]).1 - spec_words(
                s,
                0,
            )[k].0 <= w,
    ensures
        forall|q: int| 0 <= q < spec_wrap(s, w).len() ==> (#[trigger] spec_wrap(s, w)[q]).len() <= w,
{
    let ws = spec_words(s, 0);
    lemma_words(s, 0);
    lemma_group_spans(ws, 0, w);
    lemma_wrap_props(s, w);
    assert forall|q: int| 0 <= q < spec_wrap(s, w).len() implies (#[trigger] spec_wrap(
        s,
        w,
    )[q]).len() <= w by {
        let sp = wrap_spans(s, w)[q];
        assert(span_ok(ws, sp, w));
        let (i, j) = choose|i: int, j: int|
            0 <= i <= j < ws.len() && sp == (#[trigger] ws[i].0, #[trigger] ws[j].1) && (i == j
                || sp.1 - sp.0 <= w);
        if i == j {
            assert(ws[i].1 - ws[i].0 <= w);
        }
        assert(sp.1 - sp.0 <= w);
        assert(spec_wrap(s, w)[q] == s.subrange(sp.0, sp.1));
    }
}

} // verus!
