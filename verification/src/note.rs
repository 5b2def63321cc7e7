//! Note text: how inline text is normalized, how interactive input is
//! trimmed, and when a note is blank.

use vstd::prelude::*;
use crate::text::{
    all_ws, chars_of, first_non_ws_from, is_whitespace, is_ws, last_non_ws_before,
    lemma_first_non_ws_bounds, lemma_last_non_ws_bounds, string_from_chars,
};

verus! {

/// `s` with each carriage return + line feed pair replaced by a line feed,
/// pairs matched from the left (`str::replace("\r\n", "\n")`).
pub open spec fn crlf_to_lf(s: Seq<char>) -> Seq<char>
    decreases s.len(),
{
    if s.len() == 0 {
        s
    } else if s.len() >= 2 && s[0] == '\r' && s[1] == '\n' {
        seq!['\n'] + crlf_to_lf(s.skip(2))
    } else {
        seq![s[0]] + crlf_to_lf(s.skip(1))
    }
}

/// `s` with every carriage return replaced by a line feed.
pub open spec fn cr_to_lf(s: Seq<char>) -> Seq<char> {
    s.map_values(|c: char| if c == '\r' { '\n' } else { c })
}

/// `s` without its trailing line feeds (`str::trim_end_matches('\n')`).
pub open spec fn trim_trailing_lf(s: Seq<char>) -> Seq<char>
    decreases s.len(),
{
    if s.len() > 0 && s.last() == '\n' {
        trim_trailing_lf(s.drop_last())
    } else {
        s
    }
}

/// Inline note text with its line endings normalized to line feeds and its
/// trailing line feeds removed.
pub open spec fn normalize_spec(s: Seq<char>) -> Seq<char> {
    trim_trailing_lf(cr_to_lf(crlf_to_lf(s)))
}

/// Normalizes inline note text: CRLF and lone CR become LF, and trailing line
/// feeds are dropped (the entry adds exactly one).
pub fn normalize_note(note: &str) -> (r: String)
    ensures
        r@ == normalize_spec(note@),
{
    let s = chars_of(note);
    let n = s.len();
    // CRLF -> LF
    let mut a: Vec<char> = Vec::new();
    let mut i: usize = 0;
    proof {
        assert(s@.skip(0) =~= s@);
        assert(a@ + crlf_to_lf(s@) =~= crlf_to_lf(s@));
    }
    while i < n
        invariant
            n == s@.len(),
            0 <= i <= n,
            a@ + crlf_to_lf(s@.skip(i as int)) == crlf_to_lf(s@),
        decreases n - i,
    {
        let ghost rest = s@.skip(i as int);
        if s[i] == '\r' && i + 1 < n && s[i + 1] == '\n' {
            a.push('\n');
            proof {
                assert(rest.skip(2) =~= s@.skip(i + 2));
                assert(a@ + crlf_to_lf(s@.skip(i + 2)) =~= a@.drop_last() + crlf_to_lf(rest));
            }
            i = i + 2;
        } else {
            a.push(s[i]);
            proof {
                assert(rest.skip(1) =~= s@.skip(i + 1));
                assert(rest[0] == s@[i as int]);
                assert(a@ + crlf_to_lf(s@.skip(i + 1)) =~= a@.drop_last() + crlf_to_lf(rest));
            }
            i = i + 1;
        }
    }
    proof {
        assert(s@.skip(n as int) =~= Seq::<char>::empty());
        assert(a@ + Seq::<char>::empty() =~= a@);
    }
    // CR -> LF
    let mut b: Vec<char> = Vec::new();
    let mut j: usize = 0;
    while j < a.len()
        invariant
            0 <= j <= a@.len(),
            b@ == cr_to_lf(a@.take(j as int)),
        decreases a@.len() - j,
    {
        let c = a[j];
        if c == '\r' {
            b.push('\n');
        } else {
            b.push(c);
        }
        j = j + 1;
        proof {
            assert(cr_to_lf(a@.take(j as int)) =~= cr_to_lf(a@.take(j - 1)).push(b@.last()));
        }
    }
    proof {
        assert(a@.take(j as int) =~= a@);
    }
    // trailing LFs
    let ghost full = b@;
    while b.len() > 0 && b[b.len() - 1] == '\n'
        invariant
            trim_trailing_lf(b@) == trim_trailing_lf(full),
        decreases b@.len(),
    {
        let ghost prev = b@;
        b.pop();
        proof {
            assert(b@ =~= prev.drop_last());
        }
    }
    string_from_chars(&b)
}

/// The start of the line that holds index `i`: just after the last line feed
/// before `i`, or 0.
pub open spec fn line_start(s: Seq<char>, i: int) -> int
    decreases i,
{
    if i <= 0 {
        0
    } else if s[i - 1] == '\n' {
        i
    } else {
        line_start(s, i - 1)
    }
}

/// The end of the line that holds index `i`: the first line feed at or after
/// `i`, or the length of `s`.
pub open spec fn line_end(s: Seq<char>, i: int) -> int
    decreases s.len() - i,
{
    if i >= s.len() {
        s.len() as int
    } else if s[i] == '\n' {
        i
    } else {
        line_end(s, i + 1)
    }
}

/// `text` without its leading and trailing blank lines: from the start of
/// the first line that holds a non-whitespace character to the end of the
/// last such line; empty when every line is blank.
pub open spec fn trim_blank_lines_spec(text: Seq<char>) -> Seq<char> {
    let f = first_non_ws_from(text, 0);
    if f >= text.len() {
        Seq::empty()
    } else {
        text.subrange(line_start(text, f), line_end(text, last_non_ws_before(text, text.len() as int)))
    }
}

proof fn lemma_line_start_bounds(s: Seq<char>, i: int)
    requires
        0 <= i <= s.len(),
    ensures
        0 <= line_start(s, i) <= i,
        line_start(s, i) == 0 || s[line_start(s, i) - 1] == '\n',
        forall|k: int| line_start(s, i) <= k < i ==> #[trigger] s[k] != '\n',
    decreases i,
{
    if i > 0 && s[i - 1] != '\n' {
        lemma_line_start_bounds(s, i - 1);
    }
}

proof fn lemma_line_end_bounds(s: Seq<char>, i: int)
    requires
        0 <= i <= s.len(),
    ensures
        i <= line_end(s, i) <= s.len(),
        line_end(s, i) == s.len() || s[line_end(s, i)] == '\n',
        forall|k: int| i <= k < line_end(s, i) ==> #[trigger] s[k] != '\n',
    decreases s.len() - i,
{
    if i < s.len() && s[i] != '\n' {
        lemma_line_end_bounds(s, i + 1);
    }
}

/// Trims leading and trailing blank lines from interactive input, keeping
/// everything between them (blank lines, indentation, tabs) exactly.
pub fn trim_blank_lines(text: &str) -> (r: String)
    ensures
        r@ == trim_blank_lines_spec(text@),
{
    let s = chars_of(text);
    let n = s.len();
    let mut f: usize = 0;
    while f < n && is_whitespace(s[f])
        invariant
            n == s@.len(),
            0 <= f <= n,
            first_non_ws_from(s@, f as int) == first_non_ws_from(s@, 0),
        decreases n - f,
    {
        f = f + 1;
    }
    if f >= n {
        return string_from_chars(&Vec::new());
    }
    let mut l: usize = n;
    while l > 0 && is_whitespace(s[l - 1])
        invariant
            n == s@.len(),
            0 <= l <= n,
            last_non_ws_before(s@, l as int) == last_non_ws_before(s@, n as int),
        decreases l,
    {
        l = l - 1;
    }
    proof {
        lemma_first_non_ws_bounds(s@, 0);
        lemma_last_non_ws_bounds(s@, n as int);
    }
    // f holds a non-whitespace character, so l > f
    assert(l > f) by {
        assert(last_non_ws_before(s@, n as int) >= f) by {
            if last_non_ws_before(s@, n as int) < f {
                assert(is_ws(s@[f as int]));
            }
        }
    }
    let last = l - 1;
    let mut a: usize = f;
    while a > 0 && s[a - 1] != '\n'
        invariant
            n == s@.len(),
            0 <= a <= f < n,
            line_start(s@, a as int) == line_start(s@, f as int),
        decreases a,
    {
        a = a - 1;
    }
    let mut b: usize = last;
    while b < n && s[b] != '\n'
        invariant
            n == s@.len(),
            last <= b <= n,
            line_end(s@, b as int) == line_end(s@, last as int),
        decreases n - b,
    {
        b = b + 1;
    }
    proof {
        lemma_line_start_bounds(s@, f as int);
        lemma_line_end_bounds(s@, last as int);
    }
    let mut out: Vec<char> = Vec::new();
    let mut k: usize = a;
    while k < b
        invariant
            n == s@.len(),
            a <= k <= b <= n,
            out@ == s@.subrange(a as int, k as int),
        decreases b - k,
    {
        out.push(s[k]);
        k = k + 1;
        proof {
            assert(out@ =~= s@.subrange(a as int, k as int));
        }
    }
    string_from_chars(&out)
}

/// Whether a note is blank: `note.trim()` is empty.
pub fn is_blank(note: &str) -> (r: bool)
    ensures
        r == all_ws(note@),
{
    let s = chars_of(note);
    let mut i: usize = 0;
    while i < s.len()
        invariant
            s@ == note@,
            0 <= i <= s@.len(),
            forall|k: int| 0 <= k < i ==> is_ws(#[trigger] s@[k]),
        decreases s@.len() - i,
    {
        if !is_whitespace(s[i]) {
            return false;
        }
        i = i + 1;
    }
    true
}

proof fn lemma_trim_trailing_lf_prefix(s: Seq<char>)
    ensures
        trim_trailing_lf(s).len() <= s.len(),
        trim_trailing_lf(s) == s.take(trim_trailing_lf(s).len() as int),
        trim_trailing_lf(s).len() == 0 || trim_trailing_lf(s).last() != '\n',
    decreases s.len(),
{
    if s.len() > 0 && s.last() == '\n' {
        lemma_trim_trailing_lf_prefix(s.drop_last());
        let t = trim_trailing_lf(s.drop_last());
        assert(s.drop_last().take(t.len() as int) =~= s.take(t.len() as int));
    } else {
        assert(s.take(s.len() as int) =~= s);
    }
}

/// Inline notes have LF line endings: a normalized note holds no carriage
/// return and does not end with a line feed, so the entry that carries it
/// ends with exactly one.
pub proof fn law_normalized_note_has_lf_endings(note: Seq<char>)
    ensures
        forall|i: int| 0 <= i < normalize_spec(note).len() ==> #[trigger] normalize_spec(note)[i] != '\r',
        normalize_spec(note).len() == 0 || normalize_spec(note).last() != '\n',
{
    let m = cr_to_lf(crlf_to_lf(note));
    lemma_trim_trailing_lf_prefix(m);
    let t = normalize_spec(note);
    assert forall|i: int| 0 <= i < t.len() implies #[trigger] t[i] != '\r' by {
        assert(t[i] == m[i]);
    }
}

/// `r` is `text` between the line start `a` and the line end `b`, and all of
/// `text` outside that range is whitespace.
pub open spec fn blank_outside(text: Seq<char>, r: Seq<char>, a: int, b: int) -> bool {
    &&& 0 <= a <= b <= text.len()
    &&& r == text.subrange(a, b)
    &&& all_ws(text.take(a))
    &&& all_ws(text.skip(b))
    &&& (a == 0 || text[a - 1] == '\n')
    &&& (b == text.len() || text[b] == '\n')
}

/// Trimming interactive input only removes whole blank lines at both ends:
/// the result is empty exactly when the input is blank; otherwise it is the
/// text between a line start `a` and a line end `b`, all that lies before `a`
/// and after `b` is whitespace, and its first and last lines each hold a
/// non-whitespace character.
pub proof fn law_trim_removes_only_outer_blank_lines(text: Seq<char>)
    ensures
        ({
            let r = trim_blank_lines_spec(text);
            &&& (r.len() == 0 <==> all_ws(text))
            &&& !all_ws(text) ==> exists|a: int, b: int| #[trigger] blank_outside(text, r, a, b)
            &&& r.len() > 0 ==> first_non_ws_from(r, 0) < line_end(r, 0)
            &&& r.len() > 0 ==> last_non_ws_before(r, r.len() as int) >= line_start(r, r.len() as int)
        }),
{
    let n = text.len() as int;
    let r = trim_blank_lines_spec(text);
    lemma_first_non_ws_bounds(text, 0);
    lemma_last_non_ws_bounds(text, n);
    let f = first_non_ws_from(text, 0);
    if f >= n {
        assert(all_ws(text));
        assert(r.len() == 0);
    } else {
        let l = last_non_ws_before(text, n);
        assert(l >= f) by {
            if l < f {
                assert(is_ws(text[f]));
            }
        }
        lemma_line_start_bounds(text, f);
        lemma_line_end_bounds(text, l);
        let a = line_start(text, f);
        let b = line_end(text, l);
        assert(!all_ws(text)) by {
            assert(!is_ws(text[f]));
        }
        assert(r == text.subrange(a, b));
        assert(all_ws(text.take(a))) by {
            assert forall|k: int| 0 <= k < a implies is_ws(#[trigger] text.take(a)[k]) by {
                assert(text.take(a)[k] == text[k]);
            }
        }
        assert(all_ws(text.skip(b))) by {
            assert forall|k: int| 0 <= k < text.skip(b).len() implies is_ws(#[trigger] text.skip(b)[k]) by {
                assert(text.skip(b)[k] == text[b + k]);
                if b + k == l {
                    assert(text[l] != '\n');
                }
            }
        }
        assert(blank_outside(text, r, a, b));
        // first line of r holds text[f]
        lemma_line_end_bounds(r, 0);
        lemma_first_non_ws_bounds(r, 0);
        assert(!is_ws(r[f - a]));
        assert(first_non_ws_from(r, 0) <= f - a) by {
            if first_non_ws_from(r, 0) > f - a {
                assert(is_ws(r[f - a]));
            }
        }
        assert(line_end(r, 0) > f - a) by {
            if line_end(r, 0) <= f - a {
                assert(r[line_end(r, 0)] == text[a + line_end(r, 0)]);
            }
        }
        // last line of r holds text[l]
        lemma_line_start_bounds(r, r.len() as int);
        lemma_last_non_ws_bounds(r, r.len() as int);
        assert(!is_ws(r[l - a]));
        assert(last_non_ws_before(r, r.len() as int) >= l - a) by {
            if last_non_ws_before(r, r.len() as int) < l - a {
                assert(is_ws(r[l - a]));
            }
        }
        assert(line_start(r, r.len() as int) <= l - a) by {
            let ls = line_start(r, r.len() as int);
            if ls > l - a {
                assert(r[ls - 1] == text[a + ls - 1]);
            }
        }
    }
}

/// The lines of `s` as `str::split('\n')` yields them: the pieces between
/// line feeds, an empty piece after a final line feed included.
pub open spec fn split_lines(s: Seq<char>) -> Seq<Seq<char>>
    decreases s.len(),
{
    if s.len() == 0 {
        seq![Seq::<char>::empty()]
    } else {
        let p = split_lines(s.drop_last());
        if s.last() == '\n' {
            p.push(Seq::<char>::empty())
        } else {
            p.update(p.len() - 1, p.last().push(s.last()))
        }
    }
}

/// `ls` joined with line feeds, as `[..].join("\n")` does.
pub open spec fn join_lines(ls: Seq<Seq<char>>) -> Seq<char>
    decreases ls.len(),
{
    if ls.len() == 0 {
        Seq::empty()
    } else if ls.len() == 1 {
        ls[0]
    } else {
        join_lines(ls.drop_last()) + seq!['\n'] + ls.last()
    }
}

proof fn lemma_split_nonempty(s: Seq<char>)
    ensures
        split_lines(s).len() >= 1,
    decreases s.len(),
{
    if s.len() > 0 {
        lemma_split_nonempty(s.drop_last());
    }
}

/// Joining the lines of `s` gives `s` back.
proof fn lemma_join_split(s: Seq<char>)
    ensures
        join_lines(split_lines(s)) == s,
    decreases s.len(),
{
    if s.len() > 0 {
        let t = s.drop_last();
        let c = s.last();
        let p = split_lines(t);
        lemma_join_split(t);
        lemma_split_nonempty(t);
        if c == '\n' {
            let q = p.push(Seq::<char>::empty());
            assert(q.drop_last() =~= p);
            assert(join_lines(q) =~= t + seq!['\n'] + Seq::<char>::empty());
            assert(s =~= t.push(c));
        } else {
            let q = p.update(p.len() - 1, p.last().push(c));
            if p.len() == 1 {
                assert(join_lines(q) == q[0]);
                assert(s =~= t.push(c));
            } else {
                assert(q.drop_last() =~= p.drop_last());
                assert(join_lines(q) == join_lines(p.drop_last()) + seq!['\n'] + p.last().push(c));
                assert(join_lines(p) == join_lines(p.drop_last()) + seq!['\n'] + p.last());
                assert(join_lines(q) =~= join_lines(p).push(c));
                assert(s =~= t.push(c));
            }
        }
    }
}

/// A text with no line feed is one line.
proof fn lemma_split_one_line(s: Seq<char>)
    requires
        forall|k: int| 0 <= k < s.len() ==> #[trigger] s[k] != '\n',
    ensures
        split_lines(s) == seq![s],
    decreases s.len(),
{
    if s.len() > 0 {
        let t = s.drop_last();
        assert forall|k: int| 0 <= k < t.len() implies #[trigger] t[k] != '\n' by {
            assert(t[k] == s[k]);
        }
        lemma_split_one_line(t);
        assert(s.last() != '\n');
        assert(t.push(s.last()) =~= s);
        assert(split_lines(s) =~= seq![s]);
    } else {
        assert(s =~= Seq::<char>::empty());
    }
}

/// Splitting at a line feed: the lines of `a`, then the lines of `b`.
proof fn lemma_split_concat(a: Seq<char>, b: Seq<char>)
    ensures
        split_lines(a + seq!['\n'] + b) == split_lines(a) + split_lines(b),
    decreases b.len(),
{
    let x = a + seq!['\n'] + b;
    if b.len() == 0 {
        assert(x.drop_last() =~= a);
        assert(split_lines(a) + split_lines(b) =~= split_lines(a).push(Seq::<char>::empty()));
    } else {
        let b2 = b.drop_last();
        let c = b.last();
        lemma_split_concat(a, b2);
        lemma_split_nonempty(b2);
        assert(x.drop_last() =~= a + seq!['\n'] + b2);
        assert(x.last() == c);
        let pa = split_lines(a);
        let pb = split_lines(b2);
        if c == '\n' {
            assert((pa + pb).push(Seq::<char>::empty()) =~= pa + pb.push(Seq::<char>::empty()));
        } else {
            let q = pa + pb;
            assert(q.last() == pb.last());
            assert(q.update(q.len() - 1, q.last().push(c)) =~= pa + pb.update(
                pb.len() - 1,
                pb.last().push(c),
            ));
        }
    }
}

/// Every line of a blank text is blank.
proof fn lemma_blank_lines(s: Seq<char>)
    requires
        all_ws(s),
    ensures
        forall|k: int| 0 <= k < split_lines(s).len() ==> all_ws(#[trigger] split_lines(s)[k]),
    decreases s.len(),
{
    if s.len() > 0 {
        let t = s.drop_last();
        assert(all_ws(t)) by {
            assert forall|k: int| 0 <= k < t.len() implies is_ws(#[trigger] t[k]) by {
                assert(t[k] == s[k]);
            }
        }
        lemma_blank_lines(t);
        let p = split_lines(t);
        lemma_split_nonempty(t);
        if s.last() != '\n' {
            let l = p.last().push(s.last());
            assert(all_ws(p.last()));
            assert(is_ws(s[s.len() - 1]));
            assert(all_ws(l)) by {
                assert forall|k: int| 0 <= k < l.len() implies is_ws(#[trigger] l[k]) by {
                    if k < p.last().len() {
                        assert(l[k] == p.last()[k]);
                    }
                }
            }
            assert forall|k: int| 0 <= k < split_lines(s).len() implies all_ws(#[trigger] split_lines(s)[k]) by {
                if k < p.len() - 1 {
                    assert(split_lines(s)[k] == p[k]);
                }
            }
        } else {
            assert forall|k: int| 0 <= k < split_lines(s).len() implies all_ws(#[trigger] split_lines(s)[k]) by {
                if k < p.len() {
                    assert(split_lines(s)[k] == p[k]);
                } else {
                    assert(split_lines(s)[k] =~= Seq::<char>::empty());
                }
            }
        }
    }
}

/// The first line of `s` runs up to its first line feed.
proof fn lemma_first_line(s: Seq<char>)
    ensures
        split_lines(s)[0] == s.take(line_end(s, 0)),
{
    lemma_line_end_bounds(s, 0);
    let e = line_end(s, 0);
    if e == s.len() {
        lemma_split_one_line(s);
        assert(s.take(e) =~= s);
    } else {
        let a = s.take(e);
        let b = s.skip(e + 1);
        assert(s =~= a + seq!['\n'] + b);
        lemma_split_concat(a, b);
        assert forall|k: int| 0 <= k < a.len() implies #[trigger] a[k] != '\n' by {
            assert(a[k] == s[k]);
        }
        lemma_split_one_line(a);
        assert(split_lines(s)[0] == (split_lines(a) + split_lines(b))[0]);
    }
}

/// The last line of `s` runs from just after its last line feed.
proof fn lemma_last_line(s: Seq<char>)
    ensures
        split_lines(s).last() == s.skip(line_start(s, s.len() as int)),
{
    let n = s.len() as int;
    lemma_line_start_bounds(s, n);
    let ls = line_start(s, n);
    let b = s.skip(ls);
    assert forall|k: int| 0 <= k < b.len() implies #[trigger] b[k] != '\n' by {
        assert(b[k] == s[ls + k]);
    }
    lemma_split_one_line(b);
    if ls == 0 {
        assert(b =~= s);
    } else {
        let a = s.take(ls - 1);
        assert(s =~= a + seq!['\n'] + b);
        lemma_split_concat(a, b);
    }
}

/// Lines `i` to `j` of `ls` are where the non-blank lines begin and end:
/// lines `i` and `j` are not blank, and every line before `i` or after `j`
/// is.
pub open spec fn outer_lines_blank(ls: Seq<Seq<char>>, i: int, j: int) -> bool {
    &&& 0 <= i <= j < ls.len()
    &&& !all_ws(ls[i])
    &&& !all_ws(ls[j])
    &&& forall|k: int| 0 <= k < i ==> all_ws(#[trigger] ls[k])
    &&& forall|k: int| j < k < ls.len() ==> all_ws(#[trigger] ls[k])
}

/// Trimming interactive input, line by line: split at line feeds, the input
/// keeps exactly its lines from the first non-blank one to the last
/// non-blank one, joined again with line feeds; a blank input gives the empty
/// text.
pub proof fn law_trim_keeps_the_lines_between_the_outer_non_blank_ones(text: Seq<char>)
    ensures
        all_ws(text) ==> trim_blank_lines_spec(text).len() == 0,
        !all_ws(text) ==> exists|i: int, j: int|
            #[trigger] outer_lines_blank(split_lines(text), i, j) && trim_blank_lines_spec(text)
                == join_lines(split_lines(text).subrange(i, j + 1)),
{
    law_trim_removes_only_outer_blank_lines(text);
    let m = trim_blank_lines_spec(text);
    if !all_ws(text) {
        let n = text.len() as int;
        let (a, b) = choose|a: int, b: int| #[trigger] blank_outside(text, m, a, b);
        let ml = split_lines(m);
        lemma_split_nonempty(m);
        let pre: Seq<Seq<char>> = if a > 0 {
            split_lines(text.take(a - 1))
        } else {
            Seq::empty()
        };
        let post: Seq<Seq<char>> = if b < n {
            split_lines(text.skip(b + 1))
        } else {
            Seq::empty()
        };
        assert(split_lines(text) == pre + ml + post) by {
            if a > 0 && b < n {
                let x = text.take(a - 1);
                let y = text.skip(b + 1);
                assert(text =~= x + seq!['\n'] + (m + seq!['\n'] + y));
                lemma_split_concat(x, m + seq!['\n'] + y);
                lemma_split_concat(m, y);
                assert(pre + (ml + post) =~= pre + ml + post);
            } else if a > 0 {
                let x = text.take(a - 1);
                assert(text =~= x + seq!['\n'] + m);
                lemma_split_concat(x, m);
                assert(pre + ml + post =~= pre + ml);
            } else if b < n {
                let y = text.skip(b + 1);
                assert(text =~= m + seq!['\n'] + y);
                lemma_split_concat(m, y);
                assert(pre + ml + post =~= ml + post);
            } else {
                assert(text =~= m);
                assert(pre + ml + post =~= ml);
            }
        }
        if a > 0 {
            let x = text.take(a - 1);
            assert(all_ws(x)) by {
                assert forall|k: int| 0 <= k < x.len() implies is_ws(#[trigger] x[k]) by {
                    assert(x[k] == text.take(a)[k]);
                }
            }
            lemma_blank_lines(x);
        }
        if b < n {
            let y = text.skip(b + 1);
            assert(all_ws(y)) by {
                assert forall|k: int| 0 <= k < y.len() implies is_ws(#[trigger] y[k]) by {
                    assert(y[k] == text.skip(b)[k + 1]);
                }
            }
            lemma_blank_lines(y);
        }
        let ls = split_lines(text);
        let i = pre.len() as int;
        let j = i + ml.len() - 1;
        // the first kept line is not blank
        lemma_first_line(m);
        lemma_first_non_ws_bounds(m, 0);
        lemma_line_end_bounds(m, 0);
        let f = first_non_ws_from(m, 0);
        assert(!all_ws(ml[0])) by {
            assert(ml[0][f] == m[f]);
        }
        // the last kept line is not blank
        lemma_last_line(m);
        lemma_last_non_ws_bounds(m, m.len() as int);
        lemma_line_start_bounds(m, m.len() as int);
        let l = last_non_ws_before(m, m.len() as int);
        let st = line_start(m, m.len() as int);
        assert(!all_ws(ml.last())) by {
            assert(ml.last()[l - st] == m[l]);
        }
        assert(ls[i] == ml[0]);
        assert(ls[j] == ml.last());
        assert forall|k: int| 0 <= k < i implies all_ws(#[trigger] ls[k]) by {
            assert(ls[k] == pre[k]);
        }
        assert forall|k: int| j < k < ls.len() implies all_ws(#[trigger] ls[k]) by {
            assert(ls[k] == post[k - i - ml.len()]);
        }
        assert(outer_lines_blank(ls, i, j));
        assert(ls.subrange(i, j + 1) =~= ml);
        lemma_join_split(m);
    }
}

/// With no carriage return directly before a line feed, there is no pair to
/// fold.
proof fn lemma_crlf_to_lf_no_pair(s: Seq<char>)
    requires
        forall|i: int| 0 <= i && i + 1 < s.len() ==> !(#[trigger] s[i] == '\r' && s[i + 1] == '\n'),
    ensures
        crlf_to_lf(s) == s,
    decreases s.len(),
{
    if s.len() > 0 {
        let t = s.skip(1);
        assert forall|i: int| 0 <= i && i + 1 < t.len() implies !(#[trigger] t[i] == '\r' && t[i + 1]
            == '\n') by {
            assert(t[i] == s[i + 1] && t[i + 1] == s[i + 2]);
        }
        lemma_crlf_to_lf_no_pair(t);
        if s.len() >= 2 {
            assert(!(s[0] == '\r' && s[1] == '\n'));
        }
        assert(seq![s[0]] + t =~= s);
    }
}

/// What trailing-line-feed trimming removes is line feeds only.
proof fn lemma_trim_trailing_lf_removes_lfs(s: Seq<char>)
    ensures
        forall|i: int| trim_trailing_lf(s).len() <= i < s.len() ==> #[trigger] s[i] == '\n',
    decreases s.len(),
{
    if s.len() > 0 && s.last() == '\n' {
        lemma_trim_trailing_lf_removes_lfs(s.drop_last());
        assert forall|i: int| trim_trailing_lf(s).len() <= i < s.len() implies #[trigger] s[i] == '\n' by {
            if i < s.len() - 1 {
                assert(s[i] == s.drop_last()[i]);
            }
        }
    }
}

/// Normalizing a note with no carriage return only drops its trailing line
/// feeds: the result is the note up to its last character that is not a line
/// feed, and everything before, blank lines included, is kept as it is.
pub proof fn law_note_without_cr_keeps_its_text(note: Seq<char>)
    requires
        forall|i: int| 0 <= i < note.len() ==> #[trigger] note[i] != '\r',
    ensures
        ({
            let r = normalize_spec(note);
            &&& r.len() <= note.len()
            &&& r == note.take(r.len() as int)
            &&& forall|i: int| r.len() <= i < note.len() ==> #[trigger] note[i] == '\n'
            &&& (r.len() == 0 || r[r.len() - 1] != '\n')
        }),
{
    assert forall|i: int| 0 <= i && i + 1 < note.len() implies !(#[trigger] note[i] == '\r' && note[i
        + 1] == '\n') by {
        assert(note[i] != '\r');
    }
    lemma_crlf_to_lf_no_pair(note);
    assert(cr_to_lf(note) =~= note) by {
        assert forall|i: int| 0 <= i < note.len() implies cr_to_lf(note)[i] == note[i] by {
            assert(note[i] != '\r');
        }
    }
    lemma_trim_trailing_lf_prefix(note);
    lemma_trim_trailing_lf_removes_lfs(note);
}

/// Normalizing a note with no line feed (old Mac line endings) turns each
/// carriage return into a line feed and changes nothing else, then drops the
/// trailing ones: the result has one character for each character of the
/// note up to its last character that is not a carriage return, each the
/// same except that a carriage return became a line feed.
pub proof fn law_lone_carriage_returns_become_line_feeds(note: Seq<char>)
    requires
        forall|i: int| 0 <= i < note.len() ==> #[trigger] note[i] != '\n',
    ensures
        ({
            let r = normalize_spec(note);
            &&& r.len() <= note.len()
            &&& forall|i: int| 0 <= i < r.len() ==> #[trigger] r[i] == (if note[i] == '\r' {
                '\n'
            } else {
                note[i]
            })
            &&& forall|i: int| r.len() <= i < note.len() ==> #[trigger] note[i] == '\r'
            &&& (r.len() == 0 || note[r.len() - 1] != '\r')
        }),
{
    assert forall|i: int| 0 <= i && i + 1 < note.len() implies !(#[trigger] note[i] == '\r' && note[i
        + 1] == '\n') by {
        assert(note[i + 1] != '\n');
    }
    lemma_crlf_to_lf_no_pair(note);
    let m = cr_to_lf(note);
    lemma_trim_trailing_lf_prefix(m);
    lemma_trim_trailing_lf_removes_lfs(m);
    let r = normalize_spec(note);
    assert forall|i: int| 0 <= i < r.len() implies #[trigger] r[i] == (if note[i] == '\r' {
        '\n'
    } else {
        note[i]
    }) by {
        assert(r[i] == m.take(r.len() as int)[i]);
    }
    assert forall|i: int| r.len() <= i < note.len() implies #[trigger] note[i] == '\r' by {
        assert(m[i] == '\n');
    }
    if r.len() > 0 {
        assert(r[r.len() - 1] == m[r.len() - 1]);
    }
}

} // verus!
