//! The braindump file format: day headers, time headers, and how one entry
//! is appended to the existing content.

use vstd::prelude::*;
use crate::text::{chars_of, push_all, string_from_chars};

verus! {

/// Whether `c` is an ASCII digit.
pub open spec fn is_digit(c: char) -> bool {
    '0' <= c && c <= '9'
}

/// A day header line: `# YYYY-MM-DD`, that is `#`, a space, and digits with
/// dashes at positions 6 and 9, twelve characters in all.
pub open spec fn is_day_header_spec(l: Seq<char>) -> bool {
    &&& l.len() == 12
    &&& l[0] == '#'
    &&& l[1] == ' '
    &&& l[6] == '-'
    &&& l[9] == '-'
    &&& forall|i: int|
        0 <= i < 12 && i != 0 && i != 1 && i != 6 && i != 9 ==> is_digit(#[trigger] l[i])
}

/// Whether `line` is a day header (`# YYYY-MM-DD`).
pub fn is_day_header(line: &str) -> (r: bool)
    ensures
        r == is_day_header_spec(line@),
{
    let l = chars_of(line);
    is_day_header_chars(&l)
}

fn is_day_header_chars(l: &Vec<char>) -> (r: bool)
    ensures
        r == is_day_header_spec(l@),
{
    if l.len() != 12 {
        return false;
    }
    if l[0] != '#' || l[1] != ' ' || l[6] != '-' || l[9] != '-' {
        return false;
    }
    let mut i: usize = 0;
    while i < 12
        invariant
            l@.len() == 12,
            0 <= i <= 12,
            forall|k: int| 0 <= k < i && k != 0 && k != 1 && k != 6 && k != 9 ==> is_digit(#[trigger] l@[k]),
        decreases 12 - i,
    {
        if i != 0 && i != 1 && i != 6 && i != 9 {
            let c = l[i];
            if !('0' <= c && c <= '9') {
                return false;
            }
        }
        i = i + 1;
    }
    true
}

/// The pieces of `s` between line feeds, as `str::split('\n')` yields them.
pub open spec fn pieces(s: Seq<char>) -> Seq<Seq<char>>
    decreases s.len(),
{
    if s.len() == 0 {
        seq![Seq::<char>::empty()]
    } else {
        let p = pieces(s.drop_last());
        if s.last() == '\n' {
            p.push(Seq::<char>::empty())
        } else {
            p.update(p.len() - 1, p.last().push(s.last()))
        }
    }
}

/// A line that was ended by a line feed loses one carriage return before it.
pub open spec fn strip_cr(l: Seq<char>) -> Seq<char> {
    if l.len() > 0 && l.last() == '\r' {
        l.drop_last()
    } else {
        l
    }
}

/// The lines of `s` as `str::lines` yields them: split at line feeds, a
/// final empty piece dropped, and a carriage return before a line feed
/// removed.
pub open spec fn lines_of(s: Seq<char>) -> Seq<Seq<char>> {
    let p = pieces(s);
    let done = p.drop_last().map_values(|l: Seq<char>| strip_cr(l));
    if p.last().len() == 0 {
        done
    } else {
        done.push(p.last())
    }
}

/// The last day header among `lines`, if there is one.
pub open spec fn last_header_in(lines: Seq<Seq<char>>) -> Option<Seq<char>>
    decreases lines.len(),
{
    if lines.len() == 0 {
        None
    } else if is_day_header_spec(lines.last()) {
        Some(lines.last())
    } else {
        last_header_in(lines.drop_last())
    }
}

/// The last day header line of `content`, if there is one.
pub open spec fn last_day_header_spec(content: Seq<char>) -> Option<Seq<char>> {
    last_header_in(lines_of(content))
}

proof fn lemma_pieces_nonempty(s: Seq<char>)
    ensures
        pieces(s).len() >= 1,
    decreases s.len(),
{
    if s.len() > 0 {
        lemma_pieces_nonempty(s.drop_last());
    }
}

/// The last line of `content` that is a day header (`# YYYY-MM-DD`).
pub fn last_day_header(content: &str) -> (r: Option<String>)
    ensures
        r.deep_view() == last_day_header_spec(content@),
{
    let s = chars_of(content);
    let mut cur: Vec<char> = Vec::new();
    let mut found: Option<Vec<char>> = None;
    let ghost mut done: Seq<Seq<char>> = Seq::empty();
    let mut i: usize = 0;
    while i < s.len()
        invariant
            s@ == content@,
            0 <= i <= s@.len(),
            pieces(s@.take(i as int)) == done.push(cur@),
            found.deep_view() == last_header_in(done.map_values(|l: Seq<char>| strip_cr(l))),
        decreases s@.len() - i,
    {
        let c = s[i];
        proof {
            assert(s@.take(i + 1).drop_last() =~= s@.take(i as int));
            assert(s@.take(i + 1).last() == c);
        }
        if c == '\n' {
            let ghost old_done = done;
            let ghost old_cur = cur@;
            let mut line = cur;
            if line.len() > 0 && line[line.len() - 1] == '\r' {
                line.pop();
            }
            proof {
                done = done.push(old_cur);
                let ml = done.map_values(|l: Seq<char>| strip_cr(l));
                let om = old_done.map_values(|l: Seq<char>| strip_cr(l));
                assert(ml.drop_last() =~= om);
                assert(ml.last() == strip_cr(old_cur));
            }
            assert(line@ == strip_cr(old_cur));
            if is_day_header_chars(&line) {
                assert(line.deep_view() =~= line@);
                found = Some(line);
            }
            cur = Vec::new();
        } else {
            cur.push(c);
        }
        i = i + 1;
    }
    proof {
        assert(s@.take(i as int) =~= s@);
        assert(pieces(s@).drop_last() =~= done);
    }
    proof {
        assert(cur.deep_view() =~= cur@);
    }
    if cur.len() > 0 && is_day_header_chars(&cur) {
        proof {
            let ls = lines_of(s@);
            assert(ls.last() == cur@);
        }
        return Some(string_from_chars(&cur));
    }
    proof {
        let ls = lines_of(s@);
        if cur.len() > 0 {
            assert(ls.drop_last() =~= done.map_values(|l: Seq<char>| strip_cr(l)));
        }
    }
    match found {
        Some(v) => Some(string_from_chars(&v)),
        None => None,
    }
}

/// What goes between the existing content and a new entry so that exactly
/// one blank line separates them: nothing for an empty file, otherwise line
/// feeds up to two trailing ones.
pub open spec fn separator_spec(content: Seq<char>) -> Seq<char> {
    if content.len() == 0 {
        seq![]
    } else if content.last() != '\n' {
        seq!['\n', '\n']
    } else if content.len() >= 2 && content[content.len() - 2] == '\n' {
        seq![]
    } else {
        seq!['\n']
    }
}

fn separator_chars(content: &Vec<char>) -> (r: Vec<char>)
    ensures
        r@ == separator_spec(content@),
{
    let n = content.len();
    let mut r: Vec<char> = Vec::new();
    if n == 0 {
    } else if content[n - 1] != '\n' {
        r.push('\n');
        r.push('\n');
    } else if n >= 2 && content[n - 2] == '\n' {
    } else {
        r.push('\n');
    }
    proof {
        assert(r@ =~= separator_spec(content@));
    }
    r
}

/// The separator to write after `content` before a new entry.
pub fn separator_after(content: &str) -> (r: String)
    ensures
        r@ == separator_spec(content@),
{
    let c = chars_of(content);
    let r = separator_chars(&c);
    string_from_chars(&r)
}

/// The day header for `day`: `# ` followed by the date.
pub open spec fn day_header_of(day: Seq<char>) -> Seq<char> {
    seq!['#', ' '] + day
}

/// The text appended for one entry with note `note`, stamped `day` and
/// `time`, after `existing` content: the separator, a day header unless the
/// last day header already is this day's, the time header, the note and one
/// line feed.
pub open spec fn entry_spec(existing: Seq<char>, day: Seq<char>, time: Seq<char>, note: Seq<char>) -> Seq<char> {
    let sep = separator_spec(existing);
    let heading = if last_day_header_spec(existing) == Some(day_header_of(day)) {
        sep + seq!['#', '#', ' '] + time + seq!['\n']
    } else {
        sep + day_header_of(day) + seq!['\n', '\n', '#', '#', ' '] + time + seq!['\n']
    };
    heading + note + seq!['\n']
}

/// The text to append to a braindump file holding `existing` for an entry
/// with note `note` stamped with the day `day` (`YYYY-MM-DD`) and the time
/// `time` (`HH:MM:SS`).
pub fn entry_text(existing: &str, day: &str, time: &str, note: &str) -> (r: String)
    ensures
        r@ == entry_spec(existing@, day@, time@, note@),
{
    let ex = chars_of(existing);
    let mut header: Vec<char> = Vec::new();
    header.push('#');
    header.push(' ');
    let d = chars_of(day);
    push_all(&mut header, &d);
    proof {
        assert(header@ =~= day_header_of(day@));
    }
    let header_text = string_from_chars(&header);
    let last = last_day_header(existing);
    let same_day = match &last {
        Some(h) => *h == header_text,
        None => false,
    };
    assert(same_day == (last_day_header_spec(existing@) == Some(day_header_of(day@))));
    let mut out = separator_chars(&ex);
    if !same_day {
        push_all(&mut out, &header);
        out.push('\n');
        out.push('\n');
    }
    out.push('#');
    out.push('#');
    out.push(' ');
    let t = chars_of(time);
    push_all(&mut out, &t);
    out.push('\n');
    let n = chars_of(note);
    push_all(&mut out, &n);
    out.push('\n');
    proof {
        assert(out@ =~= entry_spec(existing@, day@, time@, note@));
    }
    string_from_chars(&out)
}

/// `s` holds no line feed.
pub open spec fn no_lf(s: Seq<char>) -> bool {
    forall|i: int| 0 <= i < s.len() ==> #[trigger] s[i] != '\n'
}

/// `s` is empty or ends with a line feed: what follows starts a new line.
pub open spec fn at_line_start(s: Seq<char>) -> bool {
    s.len() == 0 || s.last() == '\n'
}

proof fn lemma_pieces_no_lf(s: Seq<char>)
    requires
        no_lf(s),
    ensures
        pieces(s) == seq![s],
    decreases s.len(),
{
    if s.len() > 0 {
        lemma_pieces_no_lf(s.drop_last());
        assert(s.drop_last().push(s.last()) =~= s);
    } else {
        assert(s =~= Seq::<char>::empty());
    }
}

proof fn lemma_pieces_concat(a: Seq<char>, b: Seq<char>)
    requires
        at_line_start(a),
    ensures
        pieces(a + b) == pieces(a).drop_last() + pieces(b),
    decreases b.len(),
{
    lemma_pieces_nonempty(a);
    if b.len() == 0 {
        assert(a + b =~= a);
        if a.len() > 0 {
            assert(a.drop_last().len() < a.len());
            lemma_pieces_nonempty(a.drop_last());
        }
        assert(pieces(a).last() =~= Seq::<char>::empty()) by {
            if a.len() == 0 {
            } else {
            }
        }
        assert(pieces(a) =~= pieces(a).drop_last() + pieces(b));
    } else {
        lemma_pieces_concat(a, b.drop_last());
        lemma_pieces_nonempty(b.drop_last());
        assert((a + b).drop_last() =~= a + b.drop_last());
        assert((a + b).last() == b.last());
        let p = pieces(a).drop_last();
        let q = pieces(b.drop_last());
        if b.last() == '\n' {
            assert((p + q).push(Seq::<char>::empty()) =~= p + q.push(Seq::<char>::empty()));
        } else {
            let pq = p + q;
            assert(pq.update(pq.len() - 1, pq.last().push(b.last())) =~= p + q.update(
                q.len() - 1,
                q.last().push(b.last()),
            ));
        }
    }
}

proof fn lemma_lines_concat(a: Seq<char>, b: Seq<char>)
    requires
        at_line_start(a),
    ensures
        lines_of(a + b) == lines_of(a) + lines_of(b),
{
    lemma_pieces_concat(a, b);
    lemma_pieces_nonempty(a);
    lemma_pieces_nonempty(b);
    let p = pieces(a);
    let q = pieces(b);
    if a.len() > 0 {
        lemma_pieces_nonempty(a.drop_last());
    }
    assert(p.last().len() == 0);
    let f = |l: Seq<char>| strip_cr(l);
    assert((p.drop_last() + q).drop_last() =~= p.drop_last() + q.drop_last());
    assert((p.drop_last() + q.drop_last()).map_values(f) =~= p.drop_last().map_values(f)
        + q.drop_last().map_values(f));
    assert((p.drop_last() + q).last() == q.last());
    if q.last().len() == 0 {
        assert(lines_of(a + b) =~= lines_of(a) + lines_of(b));
    } else {
        assert(lines_of(a + b) =~= lines_of(a) + lines_of(b));
    }
}

proof fn lemma_one_line(s: Seq<char>)
    requires
        no_lf(s),
    ensures
        lines_of(s + seq!['\n']) == seq![strip_cr(s)],
{
    lemma_pieces_no_lf(s);
    let t = s + seq!['\n'];
    assert(t.drop_last() =~= s);
    assert(pieces(t) =~= seq![s, Seq::<char>::empty()]);
    assert(lines_of(t) =~= seq![strip_cr(s)]);
}

proof fn lemma_last_header_concat(x: Seq<Seq<char>>, y: Seq<Seq<char>>)
    ensures
        last_header_in(x + y) == (match last_header_in(y) {
            Some(h) => Some(h),
            None => last_header_in(x),
        }),
    decreases y.len(),
{
    if y.len() == 0 {
        assert(x + y =~= x);
    } else {
        assert((x + y).drop_last() =~= x + y.drop_last());
        assert((x + y).last() == y.last());
        lemma_last_header_concat(x, y.drop_last());
    }
}

/// A fresh braindump file starts directly at the day header: the entry
/// written into an empty file is `# DAY`, a blank line, `## TIME`, the note
/// and a line feed.
pub proof fn law_fresh_file_starts_at_day_header(day: Seq<char>, time: Seq<char>, note: Seq<char>)
    ensures
        entry_spec(Seq::empty(), day, time, note) == day_header_of(day) + seq!['\n', '\n', '#', '#', ' ']
            + time + seq!['\n'] + note + seq!['\n'],
{
    assert(pieces(Seq::<char>::empty()) =~= seq![Seq::<char>::empty()]);
    assert(lines_of(Seq::<char>::empty()) =~= Seq::<Seq<char>>::empty());
    assert(entry_spec(Seq::empty(), day, time, note) =~= day_header_of(day) + seq![
        '\n',
        '\n',
        '#',
        '#',
        ' ',
    ] + time + seq!['\n'] + note + seq!['\n']);
}

/// Exactly one blank line separates what was there from the new entry: after
/// non-empty content and its separator the text ends with two line feeds, and
/// a third one only if the content already ended with three.
pub proof fn law_one_blank_line_between_entries(existing: Seq<char>)
    requires
        existing.len() > 0,
    ensures
        ({
            let t = existing + separator_spec(existing);
            &&& t.len() >= 2
            &&& t[t.len() - 1] == '\n'
            &&& t[t.len() - 2] == '\n'
            &&& (t.len() >= 3 && t[t.len() - 3] == '\n') ==> (existing.len() >= 3
                && existing[existing.len() - 1] == '\n' && existing[existing.len() - 2] == '\n'
                && existing[existing.len() - 3] == '\n')
        }),
{
}

/// Appending never touches what is there: the file after a dump is the old
/// content followed by the entry, and the entry ends with the note and one
/// line feed.
pub proof fn law_append_only(existing: Seq<char>, day: Seq<char>, time: Seq<char>, note: Seq<char>)
    ensures
        ({
            let after = existing + entry_spec(existing, day, time, note);
            &&& after.take(existing.len() as int) == existing
            &&& after.len() >= existing.len() + note.len() + 1
            &&& after.skip(after.len() - note.len() - 1) == note + seq!['\n']
        }),
{
    let e = entry_spec(existing, day, time, note);
    let after = existing + e;
    assert(after.take(existing.len() as int) =~= existing);
    assert(after.skip(after.len() - note.len() - 1) =~= note + seq!['\n']);
}

proof fn lemma_lf_ends_line(s: Seq<char>)
    requires
        !at_line_start(s),
        s.last() != '\r',
    ensures
        lines_of(s + seq!['\n']) == lines_of(s),
{
    let t = s + seq!['\n'];
    assert(t.drop_last() =~= s);
    lemma_pieces_nonempty(s);
    let p = pieces(s);
    assert(pieces(t) == p.push(Seq::<char>::empty()));
    // the last piece of `s` is not empty: it holds the last character
    assert(p.last().len() > 0 && p.last().last() == s.last()) by {
        lemma_pieces_nonempty(s.drop_last());
    }
    let f = |l: Seq<char>| strip_cr(l);
    assert(p.push(Seq::<char>::empty()).drop_last() =~= p);
    assert(p.map_values(f) =~= p.drop_last().map_values(f).push(strip_cr(p.last())));
    assert(strip_cr(p.last()) == p.last());
    assert(lines_of(t) =~= lines_of(s));
}

proof fn lemma_empty_lines_no_header(n: nat)
    ensures
        last_header_in(Seq::new(n, |i: int| Seq::<char>::empty())) == None::<Seq<char>>,
    decreases n,
{
    if n > 0 {
        let s = Seq::new(n, |i: int| Seq::<char>::empty());
        assert(s.drop_last() =~= Seq::new((n - 1) as nat, |i: int| Seq::<char>::empty()));
        lemma_empty_lines_no_header((n - 1) as nat);
    }
}

proof fn lemma_sep_keeps_last_header(existing: Seq<char>)
    requires
        existing.len() == 0 || existing.last() != '\r',
    ensures
        at_line_start(existing + separator_spec(existing)),
        last_header_in(lines_of(existing + separator_spec(existing))) == last_day_header_spec(
            existing,
        ),
{
    let sep = separator_spec(existing);
    let nl = seq!['\n'];
    lemma_one_line(Seq::<char>::empty());
    assert(Seq::<char>::empty() + nl =~= nl);
    let one = seq![Seq::<char>::empty()];
    assert(lines_of(nl) == one);
    assert(one =~= Seq::new(1, |i: int| Seq::<char>::empty()));
    lemma_empty_lines_no_header(1);
    if sep.len() == 0 {
        assert(existing + sep =~= existing);
    } else if at_line_start(existing) {
        assert(sep =~= nl);
        lemma_lines_concat(existing, nl);
        lemma_last_header_concat(lines_of(existing), one);
    } else {
        assert(sep =~= nl + nl);
        lemma_lf_ends_line(existing);
        assert(existing + sep =~= (existing + nl) + nl);
        lemma_lines_concat(existing + nl, nl);
        lemma_last_header_concat(lines_of(existing + nl), one);
    }
}

/// After a dump, the last day header of the file is the dump's day: the entry
/// lands in today's section, whether that section was already open or the
/// dump opened it. It holds when the day header is well formed, the time
/// holds no line feed, the note holds no line that is itself a day header,
/// and the file does not end in a carriage return.
pub proof fn law_entry_lands_under_its_day(
    existing: Seq<char>,
    day: Seq<char>,
    time: Seq<char>,
    note: Seq<char>,
)
    requires
        is_day_header_spec(day_header_of(day)),
        no_lf(time),
        last_day_header_spec(note + seq!['\n']) == None::<Seq<char>>,
        existing.len() == 0 || existing.last() != '\r',
    ensures
        last_day_header_spec(existing + entry_spec(existing, day, time, note)) == Some(
            day_header_of(day),
        ),
{
    let sep = separator_spec(existing);
    let a = existing + sep;
    let h = day_header_of(day);
    lemma_sep_keeps_last_header(existing);
    assert(no_lf(h)) by {
        assert forall|i: int| 0 <= i < h.len() implies #[trigger] h[i] != '\n' by {
            if i != 0 && i != 1 && i != 6 && i != 9 {
                assert(is_digit(h[i]));
            }
        }
    }
    let hl = h + seq!['\n'];
    let bl = seq!['\n'];
    let tt = seq!['#', '#', ' '] + time;
    let tl = tt + seq!['\n'];
    let nl = note + seq!['\n'];
    lemma_one_line(h);
    assert(strip_cr(h) == h);
    lemma_one_line(Seq::<char>::empty());
    assert(Seq::<char>::empty() + seq!['\n'] =~= bl);
    assert(no_lf(tt)) by {
        assert forall|i: int| 0 <= i < tt.len() implies #[trigger] tt[i] != '\n' by {
            if i >= 3 {
                assert(tt[i] == time[i - 3]);
            }
        }
    }
    lemma_one_line(tt);
    let tline = strip_cr(tt);
    assert(!is_day_header_spec(tline)) by {
        if tline.len() == 12 {
            assert(tline[1] == tt[1]);
        }
    }
    assert(last_header_in(lines_of(tl)) == None::<Seq<char>>) by {
        let ls = lines_of(tl);
        assert(ls == seq![tline]);
        assert(ls.last() == tline);
        assert(ls.drop_last() =~= Seq::<Seq<char>>::empty());
        assert(last_header_in(ls.drop_last()) == None::<Seq<char>>);
    }
    let e = entry_spec(existing, day, time, note);
    if last_day_header_spec(existing) == Some(h) {
        assert(e =~= sep + tl + nl);
        assert(existing + e =~= (a + tl) + nl);
        lemma_lines_concat(a, tl);
        lemma_lines_concat(a + tl, nl);
        lemma_last_header_concat(lines_of(a + tl), lines_of(nl));
        lemma_last_header_concat(lines_of(a), lines_of(tl));
    } else {
        assert(e =~= sep + hl + bl + tl + nl);
        assert(existing + e =~= (((a + hl) + bl) + tl) + nl);
        lemma_lines_concat(a, hl);
        lemma_lines_concat(a + hl, bl);
        lemma_lines_concat((a + hl) + bl, tl);
        lemma_lines_concat(((a + hl) + bl) + tl, nl);
        lemma_last_header_concat(lines_of(((a + hl) + bl) + tl), lines_of(nl));
        lemma_last_header_concat(lines_of((a + hl) + bl), lines_of(tl));
        let x = lines_of(a) + seq![h];
        assert(lines_of(a + hl) == x);
        let one = seq![Seq::<char>::empty()];
        assert(lines_of(bl) == one);
        assert(one =~= Seq::new(1, |i: int| Seq::<char>::empty()));
        lemma_empty_lines_no_header(1);
        lemma_last_header_concat(x, one);
        assert(x.drop_last() =~= lines_of(a));
        assert(last_header_in(x) == Some(h));
    }
}

/// `s` holds no three line feeds in a row (no more than one blank line).
pub open spec fn no_triple_lf(s: Seq<char>) -> bool {
    forall|i: int|
        0 <= i && i + 2 < s.len() ==> !(#[trigger] s[i] == '\n' && s[i + 1] == '\n' && s[i + 2]
            == '\n')
}

/// `s` holds no carriage return.
pub open spec fn no_cr(s: Seq<char>) -> bool {
    forall|i: int| 0 <= i < s.len() ==> #[trigger] s[i] != '\r'
}

/// `a` ends with a line feed.
pub open spec fn ends_lf(a: Seq<char>) -> bool {
    a.len() >= 1 && a[a.len() - 1] == '\n'
}

/// `a` ends with two line feeds.
pub open spec fn ends_lf2(a: Seq<char>) -> bool {
    a.len() >= 2 && a[a.len() - 1] == '\n' && a[a.len() - 2] == '\n'
}

/// `b` starts with a line feed.
pub open spec fn starts_lf(b: Seq<char>) -> bool {
    b.len() >= 1 && b[0] == '\n'
}

/// `b` starts with two line feeds.
pub open spec fn starts_lf2(b: Seq<char>) -> bool {
    b.len() >= 2 && b[0] == '\n' && b[1] == '\n'
}

proof fn lemma_concat_no_triple(a: Seq<char>, b: Seq<char>)
    requires
        no_triple_lf(a),
        no_triple_lf(b),
        !(ends_lf2(a) && starts_lf(b)),
        !(ends_lf(a) && starts_lf2(b)),
    ensures
        no_triple_lf(a + b),
{
    let c = a + b;
    let n = a.len() as int;
    assert forall|i: int| 0 <= i && i + 2 < c.len() implies !(#[trigger] c[i] == '\n' && c[i + 1]
        == '\n' && c[i + 2] == '\n') by {
        if i + 2 < n {
            assert(c[i] == a[i] && c[i + 1] == a[i + 1] && c[i + 2] == a[i + 2]);
        } else if i >= n {
            assert(c[i] == b[i - n] && c[i + 1] == b[i + 1 - n] && c[i + 2] == b[i + 2 - n]);
        } else if i + 2 == n {
            assert(c[i] == a[n - 2] && c[i + 1] == a[n - 1] && c[i + 2] == b[0]);
        } else {
            assert(c[i] == a[n - 1] && c[i + 1] == b[0] && c[i + 2] == b[1]);
        }
    }
}

proof fn lemma_concat_no_cr(a: Seq<char>, b: Seq<char>)
    requires
        no_cr(a),
        no_cr(b),
    ensures
        no_cr(a + b),
{
    assert forall|i: int| 0 <= i < (a + b).len() implies #[trigger] (a + b)[i] != '\r' by {
        if i < a.len() {
            assert((a + b)[i] == a[i]);
        } else {
            assert((a + b)[i] == b[i - a.len()]);
        }
    }
}

/// A text with no line feed has no three in a row either.
proof fn lemma_no_lf_clean(s: Seq<char>)
    requires
        no_lf(s),
    ensures
        no_triple_lf(s),
{
    assert forall|i: int| 0 <= i && i + 2 < s.len() implies !(#[trigger] s[i] == '\n' && s[i + 1]
        == '\n' && s[i + 2] == '\n') by {
        assert(s[i] != '\n');
    }
}

/// The time header line `## <time>` and its line feed is clean when the
/// time has no line feed or carriage return.
proof fn lemma_time_line_clean(time: Seq<char>)
    requires
        no_lf(time),
        no_cr(time),
    ensures
        ({
            let th = seq!['#', '#', ' '] + time + seq!['\n'];
            &&& no_triple_lf(th)
            &&& no_cr(th)
            &&& th.len() >= 2
            &&& th[0] == '#'
            &&& th[th.len() - 1] == '\n'
            &&& th[th.len() - 2] != '\n'
        }),
{
    let x = seq!['#', '#', ' '] + time;
    assert(no_lf(x)) by {
        assert forall|i: int| 0 <= i < x.len() implies #[trigger] x[i] != '\n' by {
            if i >= 3 {
                assert(x[i] == time[i - 3]);
            }
        }
    }
    lemma_no_lf_clean(x);
    assert(no_cr(seq!['#', '#', ' '])) by {
        let h = seq!['#', '#', ' '];
        assert forall|i: int| 0 <= i < h.len() implies #[trigger] h[i] != '\r' by {}
    }
    lemma_concat_no_cr(seq!['#', '#', ' '], time);
    assert(no_cr(seq!['\n'])) by {
        assert forall|i: int| 0 <= i < seq!['\n'].len() implies #[trigger] seq!['\n'][i] != '\r' by {}
    }
    lemma_concat_no_cr(x, seq!['\n']);
    assert(no_triple_lf(seq!['\n']));
    lemma_concat_no_triple(x, seq!['\n']);
    let th = x + seq!['\n'];
    assert(th[th.len() - 2] == x[x.len() - 1]);
}

/// The day header line `# <day>` with the blank line after it is clean when
/// the day has no line feed or carriage return.
proof fn lemma_day_lines_clean(day: Seq<char>)
    requires
        no_lf(day),
        no_cr(day),
    ensures
        ({
            let dh = day_header_of(day) + seq!['\n', '\n'];
            &&& no_triple_lf(dh)
            &&& no_cr(dh)
            &&& dh[0] == '#'
        }),
{
    let hd = day_header_of(day);
    assert(no_lf(hd)) by {
        assert forall|i: int| 0 <= i < hd.len() implies #[trigger] hd[i] != '\n' by {
            if i >= 2 {
                assert(hd[i] == day[i - 2]);
            }
        }
    }
    assert(no_cr(seq!['#', ' '])) by {
        let x = seq!['#', ' '];
        assert forall|i: int| 0 <= i < x.len() implies #[trigger] x[i] != '\r' by {}
    }
    lemma_concat_no_cr(seq!['#', ' '], day);
    lemma_no_lf_clean(hd);
    let two = seq!['\n', '\n'];
    assert(no_triple_lf(two));
    assert(no_cr(two)) by {
        assert forall|i: int| 0 <= i < two.len() implies #[trigger] two[i] != '\r' by {}
    }
    lemma_concat_no_triple(hd, two);
    lemma_concat_no_cr(hd, two);
}

/// The file with the separator that a dump puts after it stays clean.
proof fn lemma_separated_clean(existing: Seq<char>)
    requires
        no_triple_lf(existing),
        no_cr(existing),
    ensures
        no_triple_lf(existing + separator_spec(existing)),
        no_cr(existing + separator_spec(existing)),
{
    let sep = separator_spec(existing);
    assert(no_cr(sep));
    lemma_concat_no_cr(existing, sep);
    if sep.len() == 0 {
        assert(existing + sep =~= existing);
    } else {
        assert(no_triple_lf(sep));
        lemma_concat_no_triple(existing, sep);
    }
}

/// Dumping keeps a clean file clean: when the file has no carriage return
/// and never three line feeds in a row, and the note has neither and does
/// not start or end with a line feed (as normalized inline notes and trimmed
/// interactive notes do not), the file after the dump again has no carriage
/// return and never three line feeds in a row, and it ends with the note and
/// one line feed.
pub proof fn law_dumps_keep_the_file_clean(
    existing: Seq<char>,
    day: Seq<char>,
    time: Seq<char>,
    note: Seq<char>,
)
    requires
        no_triple_lf(existing),
        no_cr(existing),
        no_lf(day),
        no_cr(day),
        no_lf(time),
        no_cr(time),
        no_triple_lf(note),
        no_cr(note),
        !starts_lf(note),
        !ends_lf(note),
    ensures
        ({
            let after = existing + entry_spec(existing, day, time, note);
            &&& no_triple_lf(after)
            &&& no_cr(after)
            &&& after.len() >= note.len() + 1
            &&& after.skip(after.len() - note.len() - 1) == note + seq!['\n']
        }),
{
    let sep = separator_spec(existing);
    let a = existing + sep;
    lemma_separated_clean(existing);
    let th = seq!['#', '#', ' '] + time + seq!['\n'];
    lemma_time_line_clean(time);
    let dh = day_header_of(day) + seq!['\n', '\n'];
    let same = last_day_header_spec(existing) == Some(day_header_of(day));
    let heading = if same { th } else { dh + th };
    assert(no_triple_lf(heading) && no_cr(heading) && heading[0] == '#' && ends_lf(heading)
        && heading[heading.len() - 2] != '\n') by {
        if !same {
            lemma_day_lines_clean(day);
            lemma_concat_no_triple(dh, th);
            lemma_concat_no_cr(dh, th);
            assert((dh + th)[0] == '#');
            assert((dh + th)[(dh + th).len() - 2] == th[th.len() - 2]);
            assert((dh + th)[(dh + th).len() - 1] == th[th.len() - 1]);
        }
    }
    let nl = note + seq!['\n'];
    assert(no_cr(seq!['\n'])) by {
        assert forall|i: int| 0 <= i < seq!['\n'].len() implies #[trigger] seq!['\n'][i] != '\r' by {}
    }
    assert(no_triple_lf(seq!['\n']));
    lemma_concat_no_cr(note, seq!['\n']);
    lemma_concat_no_triple(note, seq!['\n']);
    lemma_concat_no_triple(heading, nl);
    lemma_concat_no_cr(heading, nl);
    let b = heading + nl;
    assert(b[0] == '#');
    lemma_concat_no_triple(a, b);
    lemma_concat_no_cr(a, b);
    let e = entry_spec(existing, day, time, note);
    if same {
        assert(e =~= sep + th + nl);
    } else {
        assert(e =~= sep + dh + th + nl);
    }
    assert(existing + e =~= a + b);
    law_append_only(existing, day, time, note);
}

/// Where today's section is already the last one, a dump only adds the time
/// header and the note: the entry is the separator, `## TIME`, a line feed,
/// the note and a line feed, with no day header, however long the file.
/// Otherwise the entry opens the day: the separator, `# DAY`, a blank line,
/// `## TIME`, a line feed, the note and a line feed.
pub proof fn law_day_header_written_once_per_section(
    existing: Seq<char>,
    day: Seq<char>,
    time: Seq<char>,
    note: Seq<char>,
)
    ensures
        last_day_header_spec(existing) == Some(seq!['#', ' '] + day) ==> entry_spec(
            existing,
            day,
            time,
            note,
        ) == separator_spec(existing) + seq!['#', '#', ' '] + time + seq!['\n'] + note + seq!['\n'],
        last_day_header_spec(existing) != Some(seq!['#', ' '] + day) ==> entry_spec(
            existing,
            day,
            time,
            note,
        ) == separator_spec(existing) + seq!['#', ' '] + day + seq!['\n', '\n', '#', '#', ' ']
            + time + seq!['\n'] + note + seq!['\n'],
{
    assert(day_header_of(day) == seq!['#', ' '] + day);
    let e = entry_spec(existing, day, time, note);
    let sep = separator_spec(existing);
    if last_day_header_spec(existing) == Some(seq!['#', ' '] + day) {
        assert(e =~= sep + seq!['#', '#', ' '] + time + seq!['\n'] + note + seq!['\n']);
    } else {
        assert(e =~= sep + seq!['#', ' '] + day + seq!['\n', '\n', '#', '#', ' '] + time
            + seq!['\n'] + note + seq!['\n']);
    }
}

} // verus!
