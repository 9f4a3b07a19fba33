//! Character-level scanning helpers shared by the parser and the wrapper:
//! first-index scans, line splitting, space stripping, and joining.

use vstd::prelude::*;

verus! {

/// A character that ends a line of the body grammar.
pub open spec fn is_line_end(c: char) -> bool {
    c == '\n' || c == '\r'
}

/// Whitespace as the link grammar and the wrapper see it.
pub open spec fn is_ws(c: char) -> bool {
    c == ' ' || c == '\t' || c == '\n' || c == '\r'
}

/// The first index at or after `i` whose character satisfies `p`, or the
/// length when none does.
pub open spec fn first_idx(s: Seq<char>, i: int, p: spec_fn(char) -> bool) -> int
    decreases s.len() - i,
    when 0 <= i <= s.len()
{
    if i >= s.len() {
        i
    } else if p(s[i]) {
        i
    } else {
        first_idx(s, i + 1, p)
    }
}

pub proof fn lemma_first_idx(s: Seq<char>, i: int, p: spec_fn(char) -> bool)
    requires
        0 <= i <= s.len(),
    ensures
        i <= first_idx(s, i, p) <= s.len(),
        forall|k: int| i <= k < first_idx(s, i, p) ==> !p(s[k]),
        first_idx(s, i, p) < s.len() ==> p(s[first_idx(s, i, p)]),
    decreases s.len() - i,
{
    if i < s.len() && !p(s[i]) {
        lemma_first_idx(s, i + 1, p);
    }
}

/// The scan result is pinned down by its characterization.
pub proof fn lemma_first_idx_is(s: Seq<char>, i: int, p: spec_fn(char) -> bool, j: int)
    requires
        0 <= i <= j <= s.len(),
        forall|k: int| i <= k < j ==> !p(s[k]),
        j < s.len() ==> p(s[j]),
    ensures
        first_idx(s, i, p) == j,
    decreases s.len() - i,
{
    if i < s.len() && !p(s[i]) {
        lemma_first_idx_is(s, i + 1, p, j);
    }
}

/// Index of the first line-ending character, or the length.
pub open spec fn line_end(s: Seq<char>) -> int {
    first_idx(s, 0, |c: char| is_line_end(c))
}

/// Index just past the line terminator: a `\r\n` pair counts as one
/// terminator, any other line-ending character stands alone.
pub open spec fn line_next(s: Seq<char>) -> int {
    let e = line_end(s);
    if e == s.len() {
        e
    } else if s[e] == '\r' && e + 1 < s.len() && s[e + 1] == '\n' {
        e + 2
    } else {
        e + 1
    }
}

/// The content of the first line: everything before its terminator.
pub open spec fn take_line_content(s: Seq<char>) -> Seq<char> {
    s.subrange(0, line_end(s))
}

/// Everything after the first line's terminator.
pub open spec fn take_line_rest(s: Seq<char>) -> Seq<char> {
    s.subrange(line_next(s), s.len() as int)
}

pub proof fn lemma_take_line(s: Seq<char>)
    ensures
        0 <= line_end(s) <= line_next(s) <= s.len(),
        s.len() > 0 ==> line_next(s) >= 1,
        take_line_rest(s).len() == s.len() - line_next(s),
        forall|k: int| 0 <= k < line_end(s) ==> !is_line_end(s[k]),
        line_end(s) < s.len() ==> is_line_end(s[line_end(s)]),
{
    lemma_first_idx(s, 0, |c: char| is_line_end(c));
}

/// Index of the first character at or after `i` that is not a space.
pub open spec fn non_space(s: Seq<char>, i: int) -> int {
    first_idx(s, i, |c: char| c != ' ')
}

/// `s` with its leading spaces removed.
pub open spec fn strip_spaces(s: Seq<char>) -> Seq<char> {
    s.subrange(non_space(s, 0), s.len() as int)
}

pub proof fn lemma_strip_spaces(s: Seq<char>)
    ensures
        0 <= non_space(s, 0) <= s.len(),
        forall|k: int| 0 <= k < non_space(s, 0) ==> s[k] == ' ',
        non_space(s, 0) < s.len() ==> s[non_space(s, 0)] != ' ',
        strip_spaces(s).len() <= s.len(),
        strip_spaces(s).len() > 0 ==> strip_spaces(s)[0] != ' ',
{
    lemma_first_idx(s, 0, |c: char| c != ' ');
}

/// Lines joined by a single newline character.
pub open spec fn join_nl(ls: Seq<Seq<char>>) -> Seq<char>
    decreases ls.len(),
{
    if ls.len() == 0 {
        Seq::empty()
    } else if ls.len() == 1 {
        ls[0]
    } else {
        ls[0] + seq!['\n'] + join_nl(ls.drop_first())
    }
}

pub proof fn lemma_join_push(ls: Seq<Seq<char>>, c: Seq<char>)
    ensures
        join_nl(ls.push(c)) == if ls.len() == 0 {
            c
        } else {
            join_nl(ls) + seq!['\n'] + c
        },
    decreases ls.len(),
{
    if ls.len() == 0 {
        assert(ls.push(c).len() == 1);
        assert(join_nl(ls.push(c)) == ls.push(c)[0]);
        assert(ls.push(c)[0] == c);
    } else {
        lemma_join_push(ls.drop_first(), c);
        assert(ls.push(c).drop_first() =~= ls.drop_first().push(c));
        if ls.len() == 1 {
            assert(join_nl(ls.drop_first()).len() == 0);
            assert(join_nl(ls) == ls[0]);
            assert(join_nl(ls.push(c)) == ls.push(c)[0] + seq!['\n'] + join_nl(
                ls.drop_first().push(c),
            ));
            assert(join_nl(ls.drop_first().push(c)) == c);
            assert(ls.push(c)[0] == ls[0]);
        } else {
            assert(join_nl(ls.push(c)) == ls[0] + seq!['\n'] + (join_nl(ls.drop_first()) + seq![
                '\n',
            ] + c));
            assert(join_nl(ls) + seq!['\n'] + c == (ls[0] + seq!['\n'] + join_nl(ls.drop_first()))
                + seq!['\n'] + c);
            assert(ls[0] + seq!['\n'] + (join_nl(ls.drop_first()) + seq!['\n'] + c) =~= (ls[0]
                + seq!['\n'] + join_nl(ls.drop_first())) + seq!['\n'] + c);
        }
    }
}

/// The characters of `s` as a vector.
pub fn to_chars(s: &str) -> (v: Vec<char>)
    ensures
        v@ == s@,
{
    let n = s.unicode_len();
    let mut v: Vec<char> = Vec::new();
    let mut i: usize = 0;
    while i < n
        invariant
            n == s@.len(),
            i <= n,
            v@ =~= s@.subrange(0, i as int),
        decreases n - i,
    {
        v.push(s.get_char(i));
        i = i + 1;
    }
    assert(v@ =~= s@);
    v
}

/// Character-for-character equality of two strings.
pub fn str_eq(a: &str, b: &str) -> (r: bool)
    ensures
        r == (a@ == b@),
{
    let va = to_chars(a);
    let vb = to_chars(b);
    if va.len() != vb.len() {
        return false;
    }
    let n = va.len();
    let mut i: usize = 0;
    while i < n
        invariant
            n == va@.len() == vb@.len(),
            va@ == a@,
            vb@ == b@,
            i <= n,
            forall|k: int| 0 <= k < i ==> va@[k] == vb@[k],
        decreases n - i,
    {
        if va[i] != vb[i] {
            return false;
        }
        i = i + 1;
    }
    proof {
        assert(a@ =~= b@);
    }
    true
}

/// Whether `s` begins with `prefix`, character for character.
pub fn starts_with_str(s: &str, prefix: &str) -> (r: bool)
    ensures
        r == (s@.len() >= prefix@.len() && s@.subrange(0, prefix@.len() as int) == prefix@),
{
    let vs = to_chars(s);
    let vp = to_chars(prefix);
    if vs.len() < vp.len() {
        return false;
    }
    let n = vp.len();
    let mut i: usize = 0;
    while i < n
        invariant
            n == vp@.len(),
            n <= vs@.len(),
            vs@ == s@,
            vp@ == prefix@,
            i <= n,
            forall|k: int| 0 <= k < i ==> vs@[k] == vp@[k],
        decreases n - i,
    {
        if vs[i] != vp[i] {
            proof {
                if s@.subrange(0, prefix@.len() as int) == prefix@ {
                    assert(s@.subrange(0, prefix@.len() as int)[i as int] == s@[i as int]);
                }
            }
            return false;
        }
        i = i + 1;
    }
    proof {
        assert(s@.subrange(0, prefix@.len() as int) =~= prefix@);
    }
    true
}

/// The characters of `s` between two character positions, as an owned string.
pub fn substr(s: &str, a: usize, b: usize) -> (r: String)
    requires
        a <= b <= s@.len(),
    ensures
        r@ == s@.subrange(a as int, b as int),
{
    String::from_str(s.substring_char(a, b))
}

/// First position at or after `from` holding a line-ending character.
pub fn scan_line_end(v: &Vec<char>, from: usize) -> (e: usize)
    requires
        from <= v@.len(),
    ensures
        from <= e <= v@.len(),
        forall|k: int| from <= k < e ==> !is_line_end(v@[k]),
        e < v@.len() ==> is_line_end(v@[e as int]),
{
    let n = v.len();
    let mut i = from;
    while i < n
        invariant
            from <= i <= n,
            n == v@.len(),
            forall|k: int| from <= k < i ==> !is_line_end(v@[k]),
        decreases n - i,
    {
        let c = v[i];
        if c == '\n' || c == '\r' {
            return i;
        }
        i = i + 1;
    }
    i
}

/// First position at or after `from` holding a character other than a space.
pub fn scan_non_space(v: &Vec<char>, from: usize) -> (e: usize)
    requires
        from <= v@.len(),
    ensures
        from <= e <= v@.len(),
        forall|k: int| from <= k < e ==> v@[k] == ' ',
        e < v@.len() ==> v@[e as int] != ' ',
{
    let n = v.len();
    let mut i = from;
    while i < n
        invariant
            from <= i <= n,
            n == v@.len(),
            forall|k: int| from <= k < i ==> v@[k] == ' ',
        decreases n - i,
    {
        if v[i] != ' ' {
            return i;
        }
        i = i + 1;
    }
    i
}

/// First position at or after `from` holding a character that is not
/// whitespace.
pub fn scan_non_ws(v: &Vec<char>, from: usize) -> (e: usize)
    requires
        from <= v@.len(),
    ensures
        from <= e <= v@.len(),
        forall|k: int| from <= k < e ==> is_ws(v@[k]),
        e < v@.len() ==> !is_ws(v@[e as int]),
{
    let n = v.len();
    let mut i = from;
    while i < n
        invariant
            from <= i <= n,
            n == v@.len(),
            forall|k: int| from <= k < i ==> is_ws(v@[k]),
        decreases n - i,
    {
        let c = v[i];
        if !(c == ' ' || c == '\t' || c == '\n' || c == '\r') {
            return i;
        }
        i = i + 1;
    }
    i
}

/// First position at or after `from` holding a newline character.
pub fn scan_nl(v: &Vec<char>, from: usize) -> (e: usize)
    requires
        from <= v@.len(),
    ensures
        from <= e <= v@.len(),
        forall|k: int| from <= k < e ==> v@[k] != '\n',
        e < v@.len() ==> v@[e as int] == '\n',
{
    let n = v.len();
    let mut i = from;
    while i < n
        invariant
            from <= i <= n,
            n == v@.len(),
            forall|k: int| from <= k < i ==> v@[k] != '\n',
        decreases n - i,
    {
        if v[i] == '\n' {
            return i;
        }
        i = i + 1;
    }
    i
}

/// First position at or after `from` holding a whitespace character.
pub fn scan_ws(v: &Vec<char>, from: usize) -> (e: usize)
    requires
        from <= v@.len(),
    ensures
        from <= e <= v@.len(),
        forall|k: int| from <= k < e ==> !is_ws(v@[k]),
        e < v@.len() ==> is_ws(v@[e as int]),
{
    let n = v.len();
    let mut i = from;
    while i < n
        invariant
            from <= i <= n,
            n == v@.len(),
            forall|k: int| from <= k < i ==> !is_ws(v@[k]),
        decreases n - i,
    {
        let c = v[i];
        if c == ' ' || c == '\t' || c == '\n' || c == '\r' {
            return i;
        }
        i = i + 1;
    }
    i
}

} // verus!
