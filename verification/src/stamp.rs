//! The day and time stamps of an entry, written from the clock's numbers as
//! chrono writes a date (`YYYY-MM-DD`) and a time (`%H:%M:%S`).

use vstd::prelude::*;
use crate::journal::{
    day_header_of, entry_spec, is_day_header_spec, is_digit, last_day_header_spec, no_lf,
    no_cr, no_triple_lf, starts_lf, ends_lf, law_entry_lands_under_its_day,
    law_dumps_keep_the_file_clean,
};
use crate::text::string_from_chars;

verus! {

/// The decimal digit for `d` (below ten).
pub open spec fn digit_char(d: nat) -> char {
    if d == 0 {
        '0'
    } else if d == 1 {
        '1'
    } else if d == 2 {
        '2'
    } else if d == 3 {
        '3'
    } else if d == 4 {
        '4'
    } else if d == 5 {
        '5'
    } else if d == 6 {
        '6'
    } else if d == 7 {
        '7'
    } else if d == 8 {
        '8'
    } else {
        '9'
    }
}

/// The decimal digits of `n`, without leading zeros (`0` for zero).
pub open spec fn digits(n: nat) -> Seq<char>
    decreases n,
{
    if n < 10 {
        seq![digit_char(n)]
    } else {
        digits(n / 10).push(digit_char(n % 10))
    }
}

/// `n` in decimal, padded with zeros on the left to at least `w` characters
/// (the `{:0w}` format).
pub open spec fn padded(n: nat, w: nat) -> Seq<char> {
    let d = digits(n);
    if d.len() >= w {
        d
    } else {
        Seq::new((w - d.len()) as nat, |i: int| '0') + d
    }
}

/// The text of a year as chrono writes it in a date: four digits for the
/// years 0 to 9999, otherwise a sign and at least four digits.
pub open spec fn year_spec(year: int) -> Seq<char> {
    if 0 <= year <= 9999 {
        padded(year as nat, 4)
    } else if year < 0 {
        seq!['-'] + padded((-year) as nat, 4)
    } else {
        seq!['+'] + padded(year as nat, 4)
    }
}

/// The day stamp `YYYY-MM-DD`.
pub open spec fn day_spec(year: int, month: nat, day: nat) -> Seq<char> {
    year_spec(year) + seq!['-'] + padded(month, 2) + seq!['-'] + padded(day, 2)
}

/// The second that `%S` shows: a leap second, held as a nanosecond count of
/// a second or more, shows as one more.
pub open spec fn shown_second(second: nat, nanosecond: nat) -> nat {
    second + nanosecond / 1_000_000_000
}

/// The time stamp `HH:MM:SS`.
pub open spec fn time_spec(hour: nat, minute: nat, second: nat, nanosecond: nat) -> Seq<char> {
    padded(hour, 2) + seq![':'] + padded(minute, 2) + seq![':'] + padded(
        shown_second(second, nanosecond),
        2,
    )
}

fn digit(d: u32) -> (c: char)
    requires
        d < 10,
    ensures
        c == digit_char(d as nat),
{
    if d == 0 {
        '0'
    } else if d == 1 {
        '1'
    } else if d == 2 {
        '2'
    } else if d == 3 {
        '3'
    } else if d == 4 {
        '4'
    } else if d == 5 {
        '5'
    } else if d == 6 {
        '6'
    } else if d == 7 {
        '7'
    } else if d == 8 {
        '8'
    } else {
        '9'
    }
}

fn push_digits(out: &mut Vec<char>, n: u64)
    ensures
        final(out)@ == old(out)@ + digits(n as nat),
    decreases n,
{
    if n >= 10 {
        push_digits(out, n / 10);
    }
    let d = (n % 10) as u32;
    out.push(digit(d));
    proof {
        if n < 10 {
            assert(digits(n as nat) == seq![digit_char(n as nat)]);
        }
    }
}

proof fn lemma_digits_nonempty(n: nat)
    ensures
        digits(n).len() >= 1,
    decreases n,
{
    if n >= 10 {
        lemma_digits_nonempty(n / 10);
    }
}

fn push_padded(out: &mut Vec<char>, n: u64, w: usize)
    ensures
        final(out)@ == old(out)@ + padded(n as nat, w as nat),
{
    let mut d: Vec<char> = Vec::new();
    push_digits(&mut d, n);
    proof {
        assert(d@ =~= digits(n as nat));
    }
    let start = out.len();
    if d.len() < w {
        let mut k: usize = 0;
        let zeros = w - d.len();
        while k < zeros
            invariant
                k <= zeros,
                out@.len() == start + k,
                out@.take(start as int) == old(out)@,
                forall|i: int| start <= i < start + k ==> out@[i] == '0',
                start == old(out)@.len(),
            decreases zeros - k,
        {
            out.push('0');
            k = k + 1;
        }
        proof {
            assert(out@ =~= old(out)@ + Seq::new(zeros as nat, |i: int| '0'));
        }
    }
    let ghost before = out@;
    let mut j: usize = 0;
    while j < d.len()
        invariant
            j <= d@.len(),
            out@ == before + d@.take(j as int),
        decreases d@.len() - j,
    {
        out.push(d[j]);
        j = j + 1;
        proof {
            assert(out@ =~= before + d@.take(j as int));
        }
    }
    proof {
        assert(d@.take(d@.len() as int) =~= d@);
        if d@.len() < w {
            assert(out@ =~= old(out)@ + (Seq::new((w - d@.len()) as nat, |i: int| '0') + d@));
        } else {
            assert(out@ =~= old(out)@ + d@);
        }
    }
}

/// The day stamp of a date, as chrono writes it: `YYYY-MM-DD` with the year
/// in four digits for the years 0 to 9999 and signed otherwise.
pub fn day_text(year: i32, month: u32, day: u32) -> (r: String)
    ensures
        r@ == day_spec(year as int, month as nat, day as nat),
{
    let mut out: Vec<char> = Vec::new();
    if 0 <= year && year <= 9999 {
        push_padded(&mut out, year as u64, 4);
    } else if year < 0 {
        out.push('-');
        let a: u64 = (0i64 - (year as i64)) as u64;
        push_padded(&mut out, a, 4);
    } else {
        out.push('+');
        push_padded(&mut out, year as u64, 4);
    }
    let ghost y = out@;
    out.push('-');
    push_padded(&mut out, month as u64, 2);
    out.push('-');
    push_padded(&mut out, day as u64, 2);
    proof {
        assert(y == year_spec(year as int));
        assert(out@ =~= day_spec(year as int, month as nat, day as nat));
    }
    string_from_chars(&out)
}

/// The time stamp of a time of day, as chrono's `%H:%M:%S` writes it; a
/// leap second (a nanosecond count of a second or more) shows as second 60.
pub fn time_text(hour: u32, minute: u32, second: u32, nanosecond: u32) -> (r: String)
    ensures
        r@ == time_spec(hour as nat, minute as nat, second as nat, nanosecond as nat),
{
    let mut out: Vec<char> = Vec::new();
    push_padded(&mut out, hour as u64, 2);
    out.push(':');
    push_padded(&mut out, minute as u64, 2);
    out.push(':');
    let shown: u64 = second as u64 + (nanosecond / 1_000_000_000) as u64;
    push_padded(&mut out, shown, 2);
    proof {
        assert(out@ =~= time_spec(hour as nat, minute as nat, second as nat, nanosecond as nat));
    }
    string_from_chars(&out)
}

proof fn lemma_digit_char_is_digit(d: nat)
    ensures
        is_digit(digit_char(d)),
{
}

/// Every character of `digits(n)` is a decimal digit, and there are at most
/// four of them below 10000 (two below 100).
proof fn lemma_digits(n: nat)
    ensures
        forall|i: int| 0 <= i < digits(n).len() ==> is_digit(#[trigger] digits(n)[i]),
        digits(n).len() >= 1,
        n < 10 ==> digits(n).len() == 1,
        n < 100 ==> digits(n).len() <= 2,
        n < 1000 ==> digits(n).len() <= 3,
        n < 10000 ==> digits(n).len() <= 4,
    decreases n,
{
    if n < 10 {
        lemma_digit_char_is_digit(n);
    } else {
        lemma_digits(n / 10);
        lemma_digit_char_is_digit(n % 10);
        let p = digits(n / 10);
        assert forall|i: int| 0 <= i < digits(n).len() implies is_digit(#[trigger] digits(n)[i]) by {
            if i < p.len() {
                assert(digits(n)[i] == p[i]);
            }
        }
    }
}

/// Every character of `padded(n, w)` is a decimal digit; it has exactly `w`
/// of them when `n` has no more than `w` digits.
proof fn lemma_padded(n: nat, w: nat)
    ensures
        forall|i: int| 0 <= i < padded(n, w).len() ==> is_digit(#[trigger] padded(n, w)[i]),
        digits(n).len() <= w ==> padded(n, w).len() == w,
        n < 100 && w == 2 ==> padded(n, w).len() == 2,
        n < 10000 && w == 4 ==> padded(n, w).len() == 4,
{
    lemma_digits(n);
    let d = digits(n);
    if d.len() < w {
        let z = Seq::new((w - d.len()) as nat, |i: int| '0');
        assert forall|i: int| 0 <= i < padded(n, w).len() implies is_digit(#[trigger] padded(n, w)[i]) by {
            if i < z.len() {
                assert(padded(n, w)[i] == z[i]);
            } else {
                assert(padded(n, w)[i] == d[i - z.len()]);
            }
        }
    }
}

/// Digits and the given punctuation hold no line feed or carriage return.
proof fn lemma_stamp_one_line(s: Seq<char>)
    requires
        forall|i: int|
            0 <= i < s.len() ==> is_digit(#[trigger] s[i]) || s[i] == '-' || s[i] == '+' || s[i]
                == ':',
    ensures
        no_lf(s),
        no_cr(s),
{
    assert forall|i: int| 0 <= i < s.len() implies #[trigger] s[i] != '\n' by {
        assert(is_digit(s[i]) || s[i] == '-' || s[i] == '+' || s[i] == ':');
    }
    assert forall|i: int| 0 <= i < s.len() implies #[trigger] s[i] != '\r' by {
        assert(is_digit(s[i]) || s[i] == '-' || s[i] == '+' || s[i] == ':');
    }
}

/// Day and time stamps are single lines: they hold no line feed and no
/// carriage return, whatever the clock's numbers.
pub proof fn law_stamps_are_one_line(
    year: i32,
    month: u32,
    day: u32,
    hour: u32,
    minute: u32,
    second: u32,
    nanosecond: u32,
)
    ensures
        no_lf(day_spec(year as int, month as nat, day as nat)),
        no_cr(day_spec(year as int, month as nat, day as nat)),
        no_lf(time_spec(hour as nat, minute as nat, second as nat, nanosecond as nat)),
        no_cr(time_spec(hour as nat, minute as nat, second as nat, nanosecond as nat)),
{
    let y = year as int;
    let ya: nat = if y < 0 { (-y) as nat } else { y as nat };
    lemma_padded(ya, 4);
    lemma_padded(month as nat, 2);
    lemma_padded(day as nat, 2);
    let ys = year_spec(y);
    let p = padded(ya, 4);
    assert forall|i: int| 0 <= i < ys.len() implies is_digit(#[trigger] ys[i]) || ys[i] == '-'
        || ys[i] == '+' || ys[i] == ':' by {
        if 0 <= y <= 9999 {
            assert(ys[i] == p[i]);
        } else if i > 0 {
            assert(ys[i] == p[i - 1]);
        }
    }
    let ds = day_spec(y, month as nat, day as nat);
    let pm = padded(month as nat, 2);
    let pd = padded(day as nat, 2);
    assert(ds =~= ys + seq!['-'] + pm + seq!['-'] + pd);
    assert forall|i: int| 0 <= i < ds.len() implies is_digit(#[trigger] ds[i]) || ds[i] == '-'
        || ds[i] == '+' || ds[i] == ':' by {
        let a = ys.len() as int;
        let b = a + 1 + pm.len();
        if i < a {
            assert(ds[i] == ys[i]);
        } else if i == a {
        } else if i < b {
            assert(ds[i] == pm[i - a - 1]);
        } else if i == b {
        } else {
            assert(ds[i] == pd[i - b - 1]);
        }
    }
    lemma_stamp_one_line(ds);
    let sh = shown_second(second as nat, nanosecond as nat);
    lemma_padded(hour as nat, 2);
    lemma_padded(minute as nat, 2);
    lemma_padded(sh, 2);
    let ph = padded(hour as nat, 2);
    let pmi = padded(minute as nat, 2);
    let ps = padded(sh, 2);
    let ts = time_spec(hour as nat, minute as nat, second as nat, nanosecond as nat);
    assert(ts =~= ph + seq![':'] + pmi + seq![':'] + ps);
    assert forall|i: int| 0 <= i < ts.len() implies is_digit(#[trigger] ts[i]) || ts[i] == '-'
        || ts[i] == '+' || ts[i] == ':' by {
        let a = ph.len() as int;
        let b = a + 1 + pmi.len();
        if i < a {
            assert(ts[i] == ph[i]);
        } else if i == a {
        } else if i < b {
            assert(ts[i] == pmi[i - a - 1]);
        } else if i == b {
        } else {
            assert(ts[i] == ps[i - b - 1]);
        }
    }
    lemma_stamp_one_line(ts);
}

/// For the years 0 to 9999, a day stamp makes a day header `# YYYY-MM-DD`
/// (month and day below 100, as every date's are).
proof fn lemma_day_stamp_is_a_header(year: i32, month: u32, day: u32)
    requires
        0 <= year <= 9999,
        month < 100,
        day < 100,
    ensures
        is_day_header_spec(day_header_of(day_spec(year as int, month as nat, day as nat))),
{
    let py = padded(year as nat, 4);
    let pm = padded(month as nat, 2);
    let pd = padded(day as nat, 2);
    lemma_padded(year as nat, 4);
    lemma_padded(month as nat, 2);
    lemma_padded(day as nat, 2);
    let h = day_header_of(day_spec(year as int, month as nat, day as nat));
    assert(h =~= seq!['#', ' '] + py + seq!['-'] + pm + seq!['-'] + pd);
    assert(h.len() == 12);
    assert forall|i: int| 0 <= i < 12 && i != 0 && i != 1 && i != 6 && i != 9 implies is_digit(
        #[trigger] h[i],
    ) by {
        if i < 6 {
            assert(h[i] == py[i - 2]);
        } else if i < 9 {
            assert(h[i] == pm[i - 7]);
        } else {
            assert(h[i] == pd[i - 10]);
        }
    }
}

/// Dumping keeps a clean file clean, with the stamps the clock gives: when
/// the file has no carriage return and never three line feeds in a row, and
/// the note has neither and does not start or end with a line feed, the file
/// after a dump stamped with any date and time again has no carriage return
/// and never three line feeds in a row, and it ends with the note and one
/// line feed.
pub proof fn law_stamped_dump_keeps_the_file_clean(
    existing: Seq<char>,
    year: i32,
    month: u32,
    day: u32,
    hour: u32,
    minute: u32,
    second: u32,
    nanosecond: u32,
    note: Seq<char>,
)
    requires
        no_triple_lf(existing),
        no_cr(existing),
        no_triple_lf(note),
        no_cr(note),
        !starts_lf(note),
        !ends_lf(note),
    ensures
        ({
            let after = existing + entry_spec(
                existing,
                day_spec(year as int, month as nat, day as nat),
                time_spec(hour as nat, minute as nat, second as nat, nanosecond as nat),
                note,
            );
            &&& no_triple_lf(after)
            &&& no_cr(after)
            &&& after.len() >= note.len() + 1
            &&& after.skip(after.len() - note.len() - 1) == note + seq!['\n']
        }),
{
    law_stamps_are_one_line(year, month, day, hour, minute, second, nanosecond);
    law_dumps_keep_the_file_clean(
        existing,
        day_spec(year as int, month as nat, day as nat),
        time_spec(hour as nat, minute as nat, second as nat, nanosecond as nat),
        note,
    );
}

/// After a dump stamped with a date of the years 0 to 9999, the last day
/// header of the file is that date's: the entry lands in that day's section.
/// It holds when the note holds no line that is itself a day header and the
/// file does not end in a carriage return.
pub proof fn law_stamped_entry_lands_under_its_day(
    existing: Seq<char>,
    year: i32,
    month: u32,
    day: u32,
    hour: u32,
    minute: u32,
    second: u32,
    nanosecond: u32,
    note: Seq<char>,
)
    requires
        0 <= year <= 9999,
        1 <= month <= 12,
        1 <= day <= 31,
        last_day_header_spec(note + seq!['\n']) == None::<Seq<char>>,
        existing.len() == 0 || existing.last() != '\r',
    ensures
        last_day_header_spec(
            existing + entry_spec(
                existing,
                day_spec(year as int, month as nat, day as nat),
                time_spec(hour as nat, minute as nat, second as nat, nanosecond as nat),
                note,
            ),
        ) == Some(day_header_of(day_spec(year as int, month as nat, day as nat))),
{
    law_stamps_are_one_line(year, month, day, hour, minute, second, nanosecond);
    lemma_day_stamp_is_a_header(year, month, day);
    law_entry_lands_under_its_day(
        existing,
        day_spec(year as int, month as nat, day as nat),
        time_spec(hour as nat, minute as nat, second as nat, nanosecond as nat),
        note,
    );
}

} // verus!
