//! The canonical rendering of a document back to `text/gemini`, and the
//! round-trip laws: parsing only ever produces well-formed lines, and
//! rendering a well-formed document and reparsing it yields the document
//! unchanged.

use vstd::prelude::*;

use crate::protocol::{Document, Line, LineView};
use crate::text::{
    first_idx, is_line_end, is_ws, join_nl, lemma_first_idx, lemma_first_idx_is,
    lemma_strip_spaces, lemma_take_line, line_next, non_space, strip_spaces, take_line_content,
    take_line_rest,
};
use crate::parser::{
    fence, prefixed, spec_parse_doc, spec_parse_line, spec_parse_link, spec_parse_pre_lines,
    lemma_parse_line_progress,
};

verus! {

// ------------------------------------------------------------------
// Well-formedness: the lines the parser can produce.
// ------------------------------------------------------------------
/// No line-ending characters.
pub open spec fn clean(s: Seq<char>) -> bool {
    forall|i: int| 0 <= i < s.len() ==> !is_line_end(s[i])
}

/// No whitespace at all: the shape of a link URL.
pub open spec fn word(s: Seq<char>) -> bool {
    forall|i: int| 0 <= i < s.len() ==> !is_ws(s[i])
}

pub open spec fn no_lead_space(s: Seq<char>) -> bool {
    s.len() > 0 ==> s[0] != ' '
}

pub open spec fn no_cr(s: Seq<char>) -> bool {
    forall|i: int| 0 <= i < s.len() ==> s[i] != '\r'
}

/// Would the text be mistaken for a prefixed line?
pub open spec fn text_starts_prefix(s: Seq<char>) -> bool {
    ||| (s.len() >= 1 && (s[0] == '#' || s[0] == '>'))
    ||| (s.len() >= 2 && s[0] == '*' && s[1] == ' ')
    ||| (s.len() >= 2 && s[0] == '=' && s[1] == '>')
    ||| (s.len() >= 3 && s[0] == '`' && s[1] == '`' && s[2] == '`')
}

/// Split on newline characters; the empty text is one empty line.
pub open spec fn split_nl(s: Seq<char>) -> Seq<Seq<char>>
    decreases s.len(),
    via split_nl_dec
{
    let e = first_idx(s, 0, |c: char| c == '\n');
    if e == s.len() {
        seq![s]
    } else {
        seq![s.subrange(0, e)] + split_nl(s.subrange(e + 1, s.len() as int))
    }
}

#[via_fn]
proof fn split_nl_dec(s: Seq<char>) {
    lemma_first_idx(s, 0, |c: char| c == '\n');
}

/// A preformatted body that the grammar can carry: no carriage returns,
/// and no interior line that would read as a closing fence.
pub open spec fn pre_text_wf(t: Seq<char>) -> bool {
    no_cr(t) && forall|i: int| 0 <= i < split_nl(t).len() ==> split_nl(t)[i] != fence()
}

/// The lines that parsing can produce, and that re-render faithfully.
pub open spec fn line_wf(l: LineView) -> bool {
    match l {
        LineView::Text(s) => clean(s) && !text_starts_prefix(s),
        LineView::BareLink(u) => word(u),
        LineView::NamedLink { url, name } => word(url) && clean(name) && name.len() > 0 && name[0]
            != ' ' && (url.len() > 0 || is_ws(name[0])),
        LineView::Pre { alt, text } => pre_text_wf(text) && match alt {
            Some(a) => clean(a) && a.len() > 0,
            None => true,
        },
        LineView::H1(s) => clean(s) && no_lead_space(s),
        LineView::H2(s) => clean(s) && no_lead_space(s),
        LineView::H3(s) => clean(s) && no_lead_space(s),
        LineView::List(s) => clean(s) && no_lead_space(s),
        LineView::Quote(s) => clean(s) && no_lead_space(s),
    }
}

pub open spec fn doc_wf(d: Seq<LineView>) -> bool {
    forall|i: int| 0 <= i < d.len() ==> line_wf(#[trigger] d[i])
}

// ------------------------------------------------------------------
// The canonical grammar, rendering a document back to text.
// ------------------------------------------------------------------
/// One line in canonical form, always ending in a newline.
pub open spec fn render_line(l: LineView) -> Seq<char> {
    match l {
        LineView::Text(s) => s + seq!['\n'],
        LineView::BareLink(u) => seq!['=', '>', ' '] + u + seq!['\n'],
        LineView::NamedLink { url, name } => seq!['=', '>', ' '] + url + seq![' '] + name + seq![
            '\n',
        ],
        LineView::Pre { alt, text } => fence() + (match alt {
            Some(a) => a,
            None => Seq::<char>::empty(),
        }) + seq!['\n'] + (if text.len() == 0 {
            Seq::<char>::empty()
        } else {
            text + seq!['\n']
        }) + fence() + seq!['\n'],
        LineView::H1(s) => seq!['#', ' '] + s + seq!['\n'],
        LineView::H2(s) => seq!['#', '#', ' '] + s + seq!['\n'],
        LineView::H3(s) => seq!['#', '#', '#', ' '] + s + seq!['\n'],
        LineView::List(s) => seq!['*', ' '] + s + seq!['\n'],
        LineView::Quote(s) => seq!['>', ' '] + s + seq!['\n'],
    }
}

pub open spec fn render_doc(d: Seq<LineView>) -> Seq<char>
    decreases d.len(),
{
    if d.len() == 0 {
        Seq::empty()
    } else {
        render_line(d[0]) + render_doc(d.drop_first())
    }
}

pub proof fn lemma_render_push(d: Seq<LineView>, l: LineView)
    ensures
        render_doc(d.push(l)) == render_doc(d) + render_line(l),
    decreases d.len(),
{
    if d.len() == 0 {
        assert(d.push(l).drop_first() =~= Seq::<LineView>::empty());
        assert(render_doc(Seq::<LineView>::empty()) == Seq::<char>::empty());
        assert(d.push(l)[0] == l);
        assert(render_doc(d.push(l)) == render_line(l) + Seq::<char>::empty());
        assert(render_line(l) + Seq::<char>::empty() =~= render_line(l));
        assert(Seq::<char>::empty() + render_line(l) =~= render_line(l));
    } else {
        lemma_render_push(d.drop_first(), l);
        assert(d.push(l).drop_first() =~= d.drop_first().push(l));
        assert(d.push(l)[0] == d[0]);
        assert(render_line(d[0]) + (render_doc(d.drop_first()) + render_line(l)) =~= (render_line(
            d[0],
        ) + render_doc(d.drop_first())) + render_line(l));
    }
}

// ------------------------------------------------------------------
// Splitting and joining preformatted bodies.
// ------------------------------------------------------------------
pub proof fn lemma_split_lines(s: Seq<char>)
    ensures
        split_nl(s).len() >= 1,
        forall|i: int, k: int|
            0 <= i < split_nl(s).len() && 0 <= k < split_nl(s)[i].len() ==> #[trigger] split_nl(
                s,
            )[i][k] != '\n',
        join_nl(split_nl(s)) == s,
        no_cr(s) ==> forall|i: int| 0 <= i < split_nl(s).len() ==> no_cr(#[trigger] split_nl(s)[i]),
    decreases s.len(),
{
    let p = |c: char| c == '\n';
    lemma_first_idx(s, 0, p);
    let e = first_idx(s, 0, p);
    if e == s.len() {
        assert(join_nl(split_nl(s)) == s);
    } else {
        let head = s.subrange(0, e);
        let tail = s.subrange(e + 1, s.len() as int);
        lemma_split_lines(tail);
        assert(split_nl(s) == seq![head] + split_nl(tail));
        assert(split_nl(s)[0] == head);
        assert(forall|i: int|
            1 <= i < split_nl(s).len() ==> #[trigger] split_nl(s)[i] == split_nl(tail)[i - 1]);
        assert(split_nl(tail).len() >= 1);
        let ls = split_nl(s);
        assert(ls.len() >= 2);
        assert(join_nl(ls) == ls[0] + seq!['\n'] + join_nl(ls.drop_first()));
        assert(ls.drop_first() =~= split_nl(tail));
        assert(join_nl(ls) == head + seq!['\n'] + tail);
        assert(head + seq!['\n'] + tail =~= s);
    }
}

pub proof fn lemma_split_join(ls: Seq<Seq<char>>)
    requires
        ls.len() >= 1,
        forall|i: int, k: int|
            0 <= i < ls.len() && 0 <= k < ls[i].len() ==> #[trigger] ls[i][k] != '\n',
    ensures
        split_nl(join_nl(ls)) == ls,
    decreases ls.len(),
{
    let p = |c: char| c == '\n';
    let s = join_nl(ls);
    if ls.len() == 1 {
        assert(s == ls[0]);
        assert forall|k: int| 0 <= k < s.len() implies !p(s[k]) by {
            assert(s[k] == ls[0][k]);
        }
        lemma_first_idx_is(s, 0, p, s.len() as int);
        assert(split_nl(s) =~= seq![ls[0]]);
        assert(seq![ls[0]] =~= ls);
    } else {
        let head = ls[0];
        let tail = ls.drop_first();
        assert(s == head + seq!['\n'] + join_nl(tail));
        assert forall|k: int| 0 <= k < head.len() implies !p(s[k]) by {
            assert(s[k] == head[k]);
        }
        assert(s[head.len() as int] == '\n');
        lemma_first_idx_is(s, 0, p, head.len() as int);
        assert(split_nl(s) == seq![s.subrange(0, head.len() as int)] + split_nl(
            s.subrange(head.len() + 1 as int, s.len() as int),
        ));
        assert(s.subrange(0, head.len() as int) =~= head);
        assert(s.subrange(head.len() + 1 as int, s.len() as int) =~= join_nl(tail));
        lemma_split_join(tail);
        assert(seq![head] + tail =~= ls);
    }
}

pub proof fn lemma_join_no_cr(ls: Seq<Seq<char>>)
    requires
        forall|i: int, k: int|
            0 <= i < ls.len() && 0 <= k < ls[i].len() ==> !is_line_end(#[trigger] ls[i][k]),
    ensures
        no_cr(join_nl(ls)),
    decreases ls.len(),
{
    if ls.len() == 0 {
    } else if ls.len() == 1 {
        assert forall|k: int| 0 <= k < join_nl(ls).len() implies join_nl(ls)[k] != '\r' by {
            assert(join_nl(ls)[k] == ls[0][k]);
        }
    } else {
        lemma_join_no_cr(ls.drop_first());
        let s = join_nl(ls);
        let head = ls[0];
        let rest = join_nl(ls.drop_first());
        assert(s == head + seq!['\n'] + rest);
        assert forall|k: int| 0 <= k < s.len() implies s[k] != '\r' by {
            if k < head.len() {
                assert(s[k] == head[k]);
            } else if k == head.len() {
                assert(s[k] == '\n');
            } else {
                assert(s[k] == rest[k - head.len() - 1]);
            }
        }
    }
}

// ------------------------------------------------------------------
// Reparsing a rendered line.
// ------------------------------------------------------------------
/// A clean line followed by a newline and anything else splits back into
/// that line and the remainder.
proof fn lemma_content_line(c: Seq<char>, rest: Seq<char>)
    requires
        clean(c),
    ensures
        take_line_content(c + seq!['\n'] + rest) == c,
        take_line_rest(c + seq!['\n'] + rest) == rest,
{
    let s = c + seq!['\n'] + rest;
    assert forall|k: int| 0 <= k < c.len() implies !is_line_end(s[k]) by {
        assert(s[k] == c[k]);
    }
    assert(s[c.len() as int] == '\n');
    lemma_first_idx_is(s, 0, |ch: char| is_line_end(ch), c.len() as int);
    assert(take_line_content(s) =~= c);
    assert(line_next(s) == c.len() + 1);
    assert(take_line_rest(s) =~= rest);
}

/// Stripping the separator space (if any) recovers the payload exactly.
proof fn lemma_strip_sep(p: Seq<char>)
    requires
        no_lead_space(p),
    ensures
        strip_spaces(seq![' '] + p) == p,
        strip_spaces(p) == p,
{
    let x = seq![' '] + p;
    assert(x[0] == ' ');
    if p.len() > 0 {
        assert(x[1] == p[0]);
    }
    lemma_first_idx_is(x, 0, |ch: char| ch != ' ', 1);
    assert(strip_spaces(x) =~= p);
    lemma_first_idx_is(p, 0, |ch: char| ch != ' ', 0);
    assert(strip_spaces(p) =~= p);
}

/// The rendered body of a preformatted block: each line with a newline.
pub open spec fn render_pre_lines(ls: Seq<Seq<char>>) -> Seq<char>
    decreases ls.len(),
{
    if ls.len() == 0 {
        Seq::empty()
    } else {
        ls[0] + seq!['\n'] + render_pre_lines(ls.drop_first())
    }
}

proof fn lemma_render_pre_lines_join(ls: Seq<Seq<char>>)
    ensures
        render_pre_lines(ls) == if ls.len() == 0 {
            Seq::<char>::empty()
        } else {
            join_nl(ls) + seq!['\n']
        },
    decreases ls.len(),
{
    if ls.len() == 0 {
    } else if ls.len() == 1 {
        assert(render_pre_lines(ls.drop_first()) == Seq::<char>::empty());
        assert(ls[0] + seq!['\n'] + Seq::<char>::empty() =~= join_nl(ls) + seq!['\n']);
    } else {
        lemma_render_pre_lines_join(ls.drop_first());
        assert(ls[0] + seq!['\n'] + (join_nl(ls.drop_first()) + seq!['\n']) =~= (ls[0] + seq!['\n']
            + join_nl(ls.drop_first())) + seq!['\n']);
    }
}

/// Reparsing a rendered preformatted body recovers its lines exactly.
proof fn lemma_pre_lines_round(ls: Seq<Seq<char>>, rest: Seq<char>)
    requires
        forall|i: int| 0 <= i < ls.len() ==> clean(#[trigger] ls[i]),
        forall|i: int| 0 <= i < ls.len() ==> #[trigger] ls[i] != fence(),
    ensures
        spec_parse_pre_lines(render_pre_lines(ls) + fence() + seq!['\n'] + rest) == (ls, rest),
    decreases ls.len(),
{
    if ls.len() == 0 {
        let s = render_pre_lines(ls) + fence() + seq!['\n'] + rest;
        assert(s =~= fence() + seq!['\n'] + rest);
        assert(clean(fence()));
        lemma_content_line(fence(), rest);
        assert(take_line_content(s) == fence());
        assert(s.len() > 0);
        assert(spec_parse_pre_lines(s) == (Seq::<Seq<char>>::empty(), rest));
        assert(Seq::<Seq<char>>::empty() =~= ls);
    } else {
        let head = ls[0];
        let tail = ls.drop_first();
        let s = render_pre_lines(ls) + fence() + seq!['\n'] + rest;
        let s2 = render_pre_lines(tail) + fence() + seq!['\n'] + rest;
        assert(s =~= head + seq!['\n'] + s2);
        lemma_content_line(head, s2);
        assert(take_line_content(s) == head);
        assert(take_line_rest(s) == s2);
        assert(s.len() > 0);
        lemma_pre_lines_round(tail, rest);
        assert(spec_parse_pre_lines(s) == (seq![head] + tail, rest));
        assert(seq![head] + tail =~= ls);
    }
}

/// Rendering one well-formed line and reparsing recovers it, whatever
/// follows.
#[verifier::rlimit(100)]
pub proof fn lemma_line_round_trip(l: LineView, rest: Seq<char>)
    requires
        line_wf(l),
    ensures
        spec_parse_line(render_line(l) + rest) == (l, rest),
{
    let s = render_line(l) + rest;
    match l {
        LineView::Text(p) => {
            assert(s =~= p + seq!['\n'] + rest);
            if p.len() == 0 {
                assert(s[0] == '\n');
            } else {
                assert(s[0] == p[0]);
                if p.len() == 1 {
                    assert(s[1] == '\n');
                } else {
                    assert(s[1] == p[1]);
                    if p.len() == 2 {
                        assert(s[2] == '\n');
                    } else {
                        assert(s[2] == p[2]);
                    }
                }
            }
            lemma_content_line(p, rest);
            assert(spec_parse_line(s) == (LineView::Text(p), rest));
        },
        LineView::H1(p) => {
            assert(s =~= seq!['#', ' '] + p + seq!['\n'] + rest);
            assert(s[0] == '#' && s[1] == ' ');
            let t = s.subrange(1, s.len() as int);
            assert(t =~= (seq![' '] + p) + seq!['\n'] + rest);
            assert(clean(seq![' '] + p));
            lemma_content_line(seq![' '] + p, rest);
            lemma_strip_sep(p);
            assert(prefixed(s, 1) == (p, rest));
        },
        LineView::H2(p) => {
            assert(s =~= seq!['#', '#', ' '] + p + seq!['\n'] + rest);
            assert(s[0] == '#' && s[1] == '#' && s[2] == ' ');
            let t = s.subrange(2, s.len() as int);
            assert(t =~= (seq![' '] + p) + seq!['\n'] + rest);
            assert(clean(seq![' '] + p));
            lemma_content_line(seq![' '] + p, rest);
            lemma_strip_sep(p);
            assert(prefixed(s, 2) == (p, rest));
        },
        LineView::H3(p) => {
            assert(s =~= seq!['#', '#', '#', ' '] + p + seq!['\n'] + rest);
            assert(s[0] == '#' && s[1] == '#' && s[2] == '#');
            let t = s.subrange(3, s.len() as int);
            assert(t =~= (seq![' '] + p) + seq!['\n'] + rest);
            assert(clean(seq![' '] + p));
            lemma_content_line(seq![' '] + p, rest);
            lemma_strip_sep(p);
            assert(prefixed(s, 3) == (p, rest));
        },
        LineView::List(p) => {
            assert(s =~= seq!['*', ' '] + p + seq!['\n'] + rest);
            assert(s[0] == '*' && s[1] == ' ');
            let t = s.subrange(2, s.len() as int);
            assert(t =~= p + seq!['\n'] + rest);
            lemma_content_line(p, rest);
            lemma_strip_sep(p);
            assert(prefixed(s, 2) == (p, rest));
        },
        LineView::Quote(p) => {
            assert(s =~= seq!['>', ' '] + p + seq!['\n'] + rest);
            assert(s[0] == '>');
            if s.len() >= 2 {
            }
            let t = s.subrange(1, s.len() as int);
            assert(t =~= (seq![' '] + p) + seq!['\n'] + rest);
            assert(clean(seq![' '] + p));
            lemma_content_line(seq![' '] + p, rest);
            lemma_strip_sep(p);
            assert(prefixed(s, 1) == (p, rest));
        },
        LineView::BareLink(u) => {
            assert(s =~= seq!['=', '>', ' '] + u + seq!['\n'] + rest);
            assert(s[0] == '=' && s[1] == '>');
            let t = s.subrange(2, s.len() as int);
            assert(t =~= (seq![' '] + u) + seq!['\n'] + rest);
            let c = seq![' '] + u;
            assert(clean(c)) by {
                assert forall|k: int| 0 <= k < c.len() implies !is_line_end(c[k]) by {
                    if k >= 1 {
                        assert(c[k] == u[k - 1]);
                    }
                }
            }
            lemma_content_line(c, rest);
            assert(c[0] == ' ');
            if u.len() > 0 {
                assert(c[1] == u[0]);
                assert(!is_ws(u[0]));
            }
            lemma_first_idx_is(c, 0, |ch: char| ch != ' ', 1);
            assert(non_space(c, 0) == 1);
            assert forall|k: int| 1 <= k < c.len() implies !is_ws(c[k]) by {
                assert(c[k] == u[k - 1]);
            }
            lemma_first_idx_is(c, 1, |ch: char| is_ws(ch), c.len() as int);
            assert(c.subrange(1, c.len() as int) =~= u);
            lemma_first_idx_is(c, c.len() as int, |ch: char| ch != ' ', c.len() as int);
            assert(c.subrange(c.len() as int, c.len() as int).len() == 0);
            assert(spec_parse_link(c) == LineView::BareLink(u));
        },
        LineView::NamedLink { url, name } => {
            assert(s =~= seq!['=', '>', ' '] + url + seq![' '] + name + seq!['\n'] + rest);
            assert(s[0] == '=' && s[1] == '>');
            let t = s.subrange(2, s.len() as int);
            let c = seq![' '] + url + seq![' '] + name;
            assert(t =~= c + seq!['\n'] + rest);
            assert(clean(c)) by {
                assert forall|k: int| 0 <= k < c.len() implies !is_line_end(c[k]) by {
                    if 1 <= k < 1 + url.len() {
                        assert(c[k] == url[k - 1]);
                    } else if k == 1 + url.len() {
                        assert(c[k] == ' ');
                    } else if k > 1 + url.len() {
                        assert(c[k] == name[k - url.len() - 2]);
                    }
                }
            }
            lemma_content_line(c, rest);
            assert(c[0] == ' ');
            if url.len() > 0 {
                // Spaces end at the url; the url runs to the separator.
                assert(c[1] == url[0] && !is_ws(url[0]));
                lemma_first_idx_is(c, 0, |ch: char| ch != ' ', 1);
                assert forall|k: int| 1 <= k < 1 + url.len() as int implies !is_ws(c[k]) by {
                    assert(c[k] == url[k - 1]);
                }
                assert(c[1 + url.len() as int] == ' ' && is_ws(' '));
                lemma_first_idx_is(c, 1, |ch: char| is_ws(ch), 1 + url.len() as int);
                assert(c.subrange(1, 1 + url.len() as int) =~= url);
                assert(c[2 + url.len() as int] == name[0] && name[0] != ' ');
                lemma_first_idx_is(c, 1 + url.len() as int, |ch: char| ch != ' ', 2 + url.len() as int);
                assert(c.subrange(2 + url.len() as int, c.len() as int) =~= name);
                assert(spec_parse_link(c) == LineView::NamedLink { url, name });
            } else {
                // Empty url: both scans stop at the name's leading tab.
                assert(c =~= seq![' ', ' '] + name);
                assert(c[0] == ' ' && c[1] == ' ');
                assert(c[2] == name[0] && name[0] != ' ' && is_ws(name[0]));
                lemma_first_idx_is(c, 0, |ch: char| ch != ' ', 2);
                lemma_first_idx_is(c, 2, |ch: char| is_ws(ch), 2);
                assert(c.subrange(2, 2) =~= url);
                lemma_first_idx_is(c, 2, |ch: char| ch != ' ', 2);
                assert(c.subrange(2, c.len() as int) =~= name);
                assert(spec_parse_link(c) == LineView::NamedLink { url, name });
            }
        },
        LineView::Pre { alt, text } => {
            let a = match alt {
                Some(x) => x,
                None => Seq::<char>::empty(),
            };
            let body = if text.len() == 0 {
                Seq::<char>::empty()
            } else {
                text + seq!['\n']
            };
            assert(s =~= fence() + a + seq!['\n'] + (body + fence() + seq!['\n'] + rest));
            assert(s[0] == '`' && s[1] == '`' && s[2] == '`');
            assert(s[0] != '#' && s[0] != '*' && s[0] != '>' && s[0] != '=');
            let t = s.subrange(3, s.len() as int);
            assert(t =~= a + seq!['\n'] + (body + fence() + seq!['\n'] + rest));
            assert(clean(a));
            lemma_content_line(a, body + fence() + seq!['\n'] + rest);
            assert(take_line_content(t) == a);
            assert((match alt {
                Some(x) => x.len() > 0,
                None => true,
            }));
            let ls = if text.len() == 0 {
                Seq::<Seq<char>>::empty()
            } else {
                split_nl(text)
            };
            lemma_split_lines(text);
            assert forall|i: int| 0 <= i < ls.len() implies clean(#[trigger] ls[i]) by {
                assert(no_cr(ls[i]));
                assert(forall|k: int| 0 <= k < ls[i].len() ==> ls[i][k] != '\n');
            }
            assert(forall|i: int| 0 <= i < ls.len() ==> #[trigger] ls[i] != fence());
            lemma_render_pre_lines_join(ls);
            if text.len() == 0 {
                assert(render_pre_lines(ls) == Seq::<char>::empty());
                assert(render_pre_lines(ls) =~= body);
            } else {
                lemma_split_join(ls);
                assert(join_nl(ls) == text);
                assert(render_pre_lines(ls) == text + seq!['\n']);
            }
            lemma_pre_lines_round(ls, rest);
            assert(render_pre_lines(ls) + fence() + seq!['\n'] + rest =~= body + fence() + seq![
                '\n',
            ] + rest);
            assert(spec_parse_pre_lines(body + fence() + seq!['\n'] + rest) == (ls, rest));
            assert(join_nl(ls) == text) by {
                if text.len() == 0 {
                } else {
                    lemma_split_join(ls);
                }
            }
            assert(spec_parse_line(s) == (LineView::Pre { alt, text }, rest));
        },
    }
}

/// Rendering a well-formed document and reparsing it yields the document.
pub proof fn lemma_doc_round_trip(d: Seq<LineView>)
    requires
        doc_wf(d),
    ensures
        spec_parse_doc(render_doc(d)) == d,
    decreases d.len(),
{
    if d.len() == 0 {
        assert(spec_parse_doc(render_doc(d)) =~= d);
    } else {
        let s = render_doc(d);
        assert(s == render_line(d[0]) + render_doc(d.drop_first()));
        lemma_line_round_trip(d[0], render_doc(d.drop_first()));
        assert(render_line(d[0]).len() > 0) by {
            match d[0] {
                LineView::Text(p) => assert(render_line(d[0])[p.len() as int] == '\n'),
                LineView::BareLink(u) => assert(render_line(d[0])[0] == '='),
                LineView::NamedLink { url, name } => assert(render_line(d[0])[0] == '='),
                LineView::Pre { alt, text } => assert(render_line(d[0])[0] == '`'),
                LineView::H1(p) => assert(render_line(d[0])[0] == '#'),
                LineView::H2(p) => assert(render_line(d[0])[0] == '#'),
                LineView::H3(p) => assert(render_line(d[0])[0] == '#'),
                LineView::List(p) => assert(render_line(d[0])[0] == '*'),
                LineView::Quote(p) => assert(render_line(d[0])[0] == '>'),
            }
        }
        assert(s.len() > 0);
        lemma_doc_round_trip(d.drop_first());
        assert(spec_parse_doc(s) == seq![d[0]] + d.drop_first());
        assert(seq![d[0]] + d.drop_first() =~= d);
    }
}

// ------------------------------------------------------------------
// Parsing only produces well-formed lines.
// ------------------------------------------------------------------
/// A line's content never holds a line-ending character.
proof fn lemma_content_clean(t: Seq<char>)
    ensures
        clean(take_line_content(t)),
{
    lemma_take_line(t);
    let c = take_line_content(t);
    assert forall|k: int| 0 <= k < c.len() implies !is_line_end(c[k]) by {
        assert(c[k] == t[k]);
    }
}

/// Every accumulated preformatted line is clean and is not the fence.
proof fn lemma_pre_lines_wf(s: Seq<char>)
    ensures
        forall|i: int|
            0 <= i < spec_parse_pre_lines(s).0.len() ==> clean(
                #[trigger] spec_parse_pre_lines(s).0[i],
            ) && spec_parse_pre_lines(s).0[i] != fence(),
    decreases s.len(),
{
    lemma_take_line(s);
    if s.len() > 0 {
        let c = take_line_content(s);
        let r = take_line_rest(s);
        if c != fence() {
            lemma_content_clean(s);
            lemma_pre_lines_wf(r);
            let ls = spec_parse_pre_lines(s).0;
            assert(ls == seq![c] + spec_parse_pre_lines(r).0);
            assert(ls[0] == c);
            assert(forall|i: int|
                1 <= i < ls.len() ==> #[trigger] ls[i] == spec_parse_pre_lines(r).0[i - 1]);
        }
    }
}

/// Whatever the input, the parsed first line is well-formed.
#[verifier::rlimit(100)]
pub proof fn lemma_parse_line_wf(s: Seq<char>)
    requires
        s.len() > 0,
    ensures
        line_wf(spec_parse_line(s).0),
{
    lemma_take_line(s);
    if s.len() >= 3 && s[0] == '#' && s[1] == '#' && s[2] == '#' {
        lemma_prefixed_wf(s, 3);
    } else if s.len() >= 2 && s[0] == '#' && s[1] == '#' {
        lemma_prefixed_wf(s, 2);
    } else if s.len() >= 1 && s[0] == '#' {
        lemma_prefixed_wf(s, 1);
    } else if s.len() >= 2 && s[0] == '*' && s[1] == ' ' {
        lemma_prefixed_wf(s, 2);
    } else if s.len() >= 1 && s[0] == '>' {
        lemma_prefixed_wf(s, 1);
    } else if s.len() >= 2 && s[0] == '=' && s[1] == '>' {
        let t = s.subrange(2, s.len() as int);
        let c = take_line_content(t);
        lemma_content_clean(t);
        let i = non_space(c, 0);
        lemma_first_idx(c, 0, |ch: char| ch != ' ');
        let j = first_idx(c, i, |ch: char| is_ws(ch));
        lemma_first_idx(c, i, |ch: char| is_ws(ch));
        let url = c.subrange(i, j);
        assert(word(url)) by {
            assert forall|k: int| 0 <= k < url.len() implies !is_ws(url[k]) by {
                assert(url[k] == c[k + i]);
            }
        }
        let k = non_space(c, j);
        lemma_first_idx(c, j, |ch: char| ch != ' ');
        let name = c.subrange(k, c.len() as int);
        if name.len() > 0 {
            assert(clean(name)) by {
                assert forall|q: int| 0 <= q < name.len() implies !is_line_end(name[q]) by {
                    assert(name[q] == c[q + k]);
                }
            }
            assert(name[0] == c[k as int]);
            assert(name[0] != ' ');
            if url.len() == 0 {
                assert(i == j);
                assert(i < c.len());
                assert(c[i as int] != ' ');
                assert(is_ws(c[j as int]));
                assert(k == i) by {
                    lemma_first_idx_is(c, j, |ch: char| ch != ' ', j);
                }
                assert(is_ws(name[0]));
            }
        }
    } else if s.len() >= 3 && s[0] == '`' && s[1] == '`' && s[2] == '`' {
        let t = s.subrange(3, s.len() as int);
        let altc = take_line_content(t);
        lemma_content_clean(t);
        let r0 = take_line_rest(t);
        let ls = spec_parse_pre_lines(r0).0;
        lemma_pre_lines_wf(r0);
        let text = join_nl(ls);
        assert(forall|i: int, k: int|
            0 <= i < ls.len() && 0 <= k < ls[i].len() ==> !is_line_end(#[trigger] ls[i][k]));
        lemma_join_no_cr(ls);
        assert(pre_text_wf(text)) by {
            if ls.len() == 0 {
                assert(text == Seq::<char>::empty());
                lemma_first_idx_is(text, 0, |ch: char| ch == '\n', 0);
                assert(split_nl(text) == seq![text]);
                assert(split_nl(text)[0] != fence()) by {
                    assert(text.len() != fence().len());
                }
            } else {
                lemma_split_join(ls);
                assert(split_nl(text) == ls);
            }
        }
    } else {
        let c = take_line_content(s);
        lemma_content_clean(s);
        assert(!text_starts_prefix(c)) by {
            lemma_take_line(s);
            if c.len() >= 1 {
                assert(c[0] == s[0]);
            }
            if c.len() >= 2 {
                assert(c[1] == s[1]);
            }
            if c.len() >= 3 {
                assert(c[2] == s[2]);
            }
        }
    }
}

/// The payload of a prefixed line is clean with no leading space.
proof fn lemma_prefixed_wf(s: Seq<char>, k: int)
    requires
        0 <= k <= s.len(),
    ensures
        clean(prefixed(s, k).0),
        no_lead_space(prefixed(s, k).0),
{
    let t = s.subrange(k, s.len() as int);
    let c = take_line_content(t);
    lemma_content_clean(t);
    lemma_strip_spaces(c);
    let p = strip_spaces(c);
    assert forall|q: int| 0 <= q < p.len() implies !is_line_end(p[q]) by {
        assert(p[q] == c[q + non_space(c, 0)]);
    }
}

/// Every line of a parsed document is well-formed.
pub proof fn lemma_parse_doc_wf(s: Seq<char>)
    ensures
        doc_wf(spec_parse_doc(s)),
    decreases s.len(),
{
    if s.len() > 0 {
        lemma_parse_line_progress(s);
        lemma_parse_line_wf(s);
        let (l, r) = spec_parse_line(s);
        lemma_parse_doc_wf(r);
        let d = spec_parse_doc(s);
        assert(d == seq![l] + spec_parse_doc(r));
        assert(d[0] == l);
        assert(forall|i: int| 1 <= i < d.len() ==> #[trigger] d[i] == spec_parse_doc(r)[i - 1]);
    }
}

/// Parse, render canonically, and reparse: the reparse yields the same
/// document, blank lines and all.
pub proof fn lemma_parse_render_parse(s: Seq<char>)
    ensures
        spec_parse_doc(render_doc(spec_parse_doc(s))) == spec_parse_doc(s),
{
    lemma_parse_doc_wf(s);
    lemma_doc_round_trip(spec_parse_doc(s));
}

// ------------------------------------------------------------------
// The executable serializer.
// ------------------------------------------------------------------
/// Append one line in canonical form.
#[verifier::rlimit(100)]
fn push_line(out: &mut String, l: &Line)
    ensures
        final (out)@ == old(out)@ + render_line(l@),
{
    proof {
        reveal_strlit("\n");
        reveal_strlit(" ");
        reveal_strlit("=> ");
        reveal_strlit("# ");
        reveal_strlit("## ");
        reveal_strlit("### ");
        reveal_strlit("* ");
        reveal_strlit("> ");
        reveal_strlit("```");
        assert(("\n")@ =~= seq!['\n']);
        assert((" ")@ =~= seq![' ']);
        assert(("=> ")@ =~= seq!['=', '>', ' ']);
        assert(("# ")@ =~= seq!['#', ' ']);
        assert(("## ")@ =~= seq!['#', '#', ' ']);
        assert(("### ")@ =~= seq!['#', '#', '#', ' ']);
        assert(("* ")@ =~= seq!['*', ' ']);
        assert(("> ")@ =~= seq!['>', ' ']);
        assert(("```")@ =~= fence());
    }
    let ghost start = out@;
    match l {
        Line::Text(s) => {
            out.append(s.as_str());
            out.append("\n");
            assert(out@ =~= start + render_line(l@));
        },
        Line::BareLink(u) => {
            out.append("=> ");
            out.append(u.as_str());
            out.append("\n");
            assert(out@ =~= start + render_line(l@));
        },
        Line::NamedLink { url, name } => {
            out.append("=> ");
            out.append(url.as_str());
            out.append(" ");
            out.append(name.as_str());
            out.append("\n");
            assert(out@ =~= start + render_line(l@));
        },
        Line::Pre { alt, text } => {
            out.append("```");
            if let Some(a) = alt {
                out.append(a.as_str());
            }
            out.append("\n");
            if !text.as_str().is_empty() {
                out.append(text.as_str());
                out.append("\n");
            }
            out.append("```");
            out.append("\n");
            assert(out@ =~= start + render_line(l@));
        },
        Line::H1(s) => {
            out.append("# ");
            out.append(s.as_str());
            out.append("\n");
            assert(out@ =~= start + render_line(l@));
        },
        Line::H2(s) => {
            out.append("## ");
            out.append(s.as_str());
            out.append("\n");
            assert(out@ =~= start + render_line(l@));
        },
        Line::H3(s) => {
            out.append("### ");
            out.append(s.as_str());
            out.append("\n");
            assert(out@ =~= start + render_line(l@));
        },
        Line::List(s) => {
            out.append("* ");
            out.append(s.as_str());
            out.append("\n");
            assert(out@ =~= start + render_line(l@));
        },
        Line::Quote(s) => {
            out.append("> ");
            out.append(s.as_str());
            out.append("\n");
            assert(out@ =~= start + render_line(l@));
        },
    }
}

/// Serialize a document with the canonical grammar.
pub fn serialize_doc(d: &Document) -> (r: String)
    ensures
        r@ == render_doc(d@),
{
    let mut out = String::new();
    let n = d.0.len();
    let mut i: usize = 0;
    while i < n
        invariant
            n == d.0@.len(),
            i <= n,
            out@ == render_doc(d@.subrange(0, i as int)),
        decreases n - i,
    {
        push_line(&mut out, &d.0[i]);
        proof {
            lemma_render_push(d@.subrange(0, i as int), d@[i as int]);
            assert(d@.subrange(0, i + 1 as int) =~= d@.subrange(0, i as int).push(d@[i as int]));
            assert(d@[i as int] == d.0@[i as int]@);
        }
        i = i + 1;
    }
    proof {
        assert(d@.subrange(0, n as int) =~= d@);
    }
    out
}

} // verus!
