//! Characters and strings: whitespace, trimming, and moving between `String`
//! and sequences of characters.

use vstd::prelude::*;

verus! {

/// The Unicode `White_Space` property, which is what `char::is_whitespace`
/// (and so `str::trim`) tests.
pub open spec fn is_ws(c: char) -> bool {
    ||| ('\u{9}' <= c && c <= '\u{d}')
    ||| c == ' '
    ||| c == '\u{85}'
    ||| c == '\u{a0}'
    ||| c == '\u{1680}'
    ||| ('\u{2000}' <= c && c <= '\u{200a}')
    ||| c == '\u{2028}'
    ||| c == '\u{2029}'
    ||| c == '\u{202f}'
    ||| c == '\u{205f}'
    ||| c == '\u{3000}'
}

/// Every character of `s` is whitespace: `s.trim()` is empty.
pub open spec fn all_ws(s: Seq<char>) -> bool {
    forall|i: int| 0 <= i < s.len() ==> is_ws(#[trigger] s[i])
}

/// Whether `c` is whitespace in the sense of `char::is_whitespace`.
pub fn is_whitespace(c: char) -> (r: bool)
    ensures
        r == is_ws(c),
{
    ('\u{9}' <= c && c <= '\u{d}') || c == ' ' || c == '\u{85}' || c == '\u{a0}'
        || c == '\u{1680}' || ('\u{2000}' <= c && c <= '\u{200a}') || c == '\u{2028}'
        || c == '\u{2029}' || c == '\u{202f}' || c == '\u{205f}' || c == '\u{3000}'
}

/// The first index at or after `i` that holds a non-whitespace character, or
/// the length of `s` if there is none.
pub open spec fn first_non_ws_from(s: Seq<char>, i: int) -> int
    decreases s.len() - i,
{
    if i >= s.len() {
        s.len() as int
    } else if !is_ws(s[i]) {
        i
    } else {
        first_non_ws_from(s, i + 1)
    }
}

/// The last index before `i` that holds a non-whitespace character, or -1.
pub open spec fn last_non_ws_before(s: Seq<char>, i: int) -> int
    decreases i,
{
    if i <= 0 {
        -1
    } else if !is_ws(s[i - 1]) {
        i - 1
    } else {
        last_non_ws_before(s, i - 1)
    }
}

pub proof fn lemma_first_non_ws_bounds(s: Seq<char>, i: int)
    requires
        0 <= i <= s.len(),
    ensures
        i <= first_non_ws_from(s, i) <= s.len(),
        first_non_ws_from(s, i) < s.len() ==> !is_ws(s[first_non_ws_from(s, i)]),
        forall|k: int| i <= k < first_non_ws_from(s, i) ==> is_ws(#[trigger] s[k]),
    decreases s.len() - i,
{
    if i < s.len() && is_ws(s[i]) {
        lemma_first_non_ws_bounds(s, i + 1);
    }
}

pub proof fn lemma_last_non_ws_bounds(s: Seq<char>, i: int)
    requires
        0 <= i <= s.len(),
    ensures
        -1 <= last_non_ws_before(s, i) < i,
        last_non_ws_before(s, i) >= 0 ==> !is_ws(s[last_non_ws_before(s, i)]),
        forall|k: int| last_non_ws_before(s, i) < k < i ==> is_ws(#[trigger] s[k]),
    decreases i,
{
    if i > 0 && is_ws(s[i - 1]) {
        lemma_last_non_ws_bounds(s, i - 1);
    }
}

/// `s` without leading and trailing whitespace (`str::trim`).
pub open spec fn trim_spec(s: Seq<char>) -> Seq<char> {
    let f = first_non_ws_from(s, 0);
    if f >= s.len() {
        Seq::empty()
    } else {
        s.subrange(f, last_non_ws_before(s, s.len() as int) + 1)
    }
}

/// `s` without leading and trailing whitespace, like `str::trim`.
pub fn trim(s: &str) -> (r: String)
    ensures
        r@ == trim_spec(s@),
{
    let c = chars_of(s);
    let n = c.len();
    let mut f: usize = 0;
    while f < n && is_whitespace(c[f])
        invariant
            n == c@.len(),
            0 <= f <= n,
            first_non_ws_from(c@, f as int) == first_non_ws_from(c@, 0),
        decreases n - f,
    {
        f = f + 1;
    }
    let mut out: Vec<char> = Vec::new();
    if f >= n {
        return string_from_chars(&out);
    }
    let mut l: usize = n;
    while l > 0 && is_whitespace(c[l - 1])
        invariant
            n == c@.len(),
            0 <= l <= n,
            last_non_ws_before(c@, l as int) == last_non_ws_before(c@, n as int),
        decreases l,
    {
        l = l - 1;
    }
    proof {
        lemma_first_non_ws_bounds(c@, 0);
        lemma_last_non_ws_bounds(c@, n as int);
        if last_non_ws_before(c@, n as int) < f {
            assert(is_ws(c@[f as int]));
        }
    }
    let mut k: usize = f;
    while k < l
        invariant
            n == c@.len(),
            f <= k <= l <= n,
            out@ == c@.subrange(f as int, k as int),
        decreases l - k,
    {
        out.push(c[k]);
        k = k + 1;
        proof {
            assert(out@ =~= c@.subrange(f as int, k as int));
        }
    }
    string_from_chars(&out)
}

/// The characters of `s`, in order.
pub fn chars_of(s: &str) -> (r: Vec<char>)
    ensures
        r@ == s@,
{
    let mut out: Vec<char> = Vec::new();
    for c in it: s.chars()
        invariant
            out@ == it.seq().subrange(0, it.index() as int),
            it.seq() == s@,
    {
        out.push(c);
    }
    out
}

/// Appends the characters of `s` to `v`.
pub fn push_all(v: &mut Vec<char>, s: &Vec<char>)
    ensures
        final(v)@ == old(v)@ + s@,
{
    let mut i: usize = 0;
    while i < s.len()
        invariant
            0 <= i <= s@.len(),
            v@ == old(v)@ + s@.take(i as int),
        decreases s@.len() - i,
    {
        v.push(s[i]);
        i = i + 1;
        proof {
            assert(s@.take(i as int) =~= s@.take(i - 1).push(s@[i - 1]));
        }
    }
    proof {
        assert(s@.take(i as int) =~= s@);
    }
}

/// `String::from_iter` over characters: the string holds exactly the given
/// characters, in order.
#[verifier::external_body]
pub(crate) fn string_from_chars(chars: &Vec<char>) -> (r: String)
    ensures
        r@ == chars@,
{
    chars.iter().collect()
}

} // verus!
