//! The date key: the canonical `YYYY_MM_DD` form of a date, used to
//! derive page file names and to decide whether a candidate date is
//! "today". Components are always compared and rendered zero-padded,
//! so a month `1` can never miss a month `"01"`.

use vstd::prelude::*;
use vstd::string::StrSliceExecFns;
use vstd::string::StringExecFns;

use crate::strutil::{append_digit, digit_char, digit_val, is_digit};

verus! {

/// A calendar date as plain components: year, month and day.
#[derive(Clone, Copy, Debug, PartialEq, Eq, Structural)]
pub struct DateKey {
    /// Four-digit year.
    pub year: i32,
    /// Month, 1 through 12.
    pub month: u8,
    /// Day of month, 1 through 31.
    pub day: u8,
}

impl DateKey {
    /// The components describe a renderable date: the year has at most
    /// four digits and month and day are in calendar range.
    pub open spec fn wf(&self) -> bool {
        &&& 0 <= self.year <= 9999
        &&& 1 <= self.month <= 12
        &&& 1 <= self.day <= 31
    }

    /// Builds a key from plain components; `None` exactly when a
    /// component is out of range.
    pub fn from_ymd(year: i32, month: u8, day: u8) -> (r: Option<DateKey>)
        ensures
            (r is Some) <==> (0 <= year <= 9999 && 1 <= month <= 12 && 1 <= day <= 31),
            r matches Some(k) ==> k == (DateKey { year, month, day }) && k.wf(),
    {
        if 0 <= year && year <= 9999 && 1 <= month && month <= 12 && 1 <= day && day <= 31 {
            Some(DateKey { year, month, day })
        } else {
            None
        }
    }

    /// Captures the current date, as the clock reports it; `None` only
    /// for a clock reading outside the renderable range.
    pub fn today() -> (r: Option<DateKey>)
        ensures
            r matches Some(k) ==> k.wf(),
    {
        let (year, month, day) = now_ymd();
        DateKey::from_ymd(year, month, day)
    }

    /// Renders the key as `YYYY_MM_DD`, each component zero-padded.
    pub fn format_key(&self) -> (r: String)
        requires
            self.wf(),
        ensures
            r@ == spec_key(*self),
    {
        let mut out = String::new();
        let y = self.year;
        append_digit(&mut out, (y / 1000) as u8);
        append_digit(&mut out, ((y / 100) % 10) as u8);
        append_digit(&mut out, ((y / 10) % 10) as u8);
        append_digit(&mut out, (y % 10) as u8);
        append_underscore(&mut out);
        append_digit(&mut out, self.month / 10);
        append_digit(&mut out, self.month % 10);
        append_underscore(&mut out);
        append_digit(&mut out, self.day / 10);
        append_digit(&mut out, self.day % 10);
        proof {
            assert(out@ =~= spec_key(*self));
        }
        out
    }
}

/// The `YYYY_MM_DD` rendering of a key.
pub open spec fn spec_key(d: DateKey) -> Seq<char> {
    four_digits(d.year as int) + seq!['_'] + two_digits(d.month as int) + seq!['_'] + two_digits(
        d.day as int,
    )
}

/// A number rendered as exactly two decimal digits.
pub open spec fn two_digits(n: int) -> Seq<char> {
    seq![digit_char(n / 10), digit_char(n % 10)]
}

/// A number rendered as exactly four decimal digits.
pub open spec fn four_digits(n: int) -> Seq<char> {
    seq![
        digit_char(n / 1000),
        digit_char((n / 100) % 10),
        digit_char((n / 10) % 10),
        digit_char(n % 10),
    ]
}

/// What a well-formed `YYYY-MM-DD` candidate string denotes: its
/// numeric year, month and day. `None` when the string is not ten
/// characters of digits and dashes in that exact shape.
pub open spec fn spec_parse_date(s: Seq<char>) -> Option<(int, int, int)> {
    if s.len() == 10 && is_digit(s[0]) && is_digit(s[1]) && is_digit(s[2]) && is_digit(s[3])
        && s[4] == '-' && is_digit(s[5]) && is_digit(s[6]) && s[7] == '-' && is_digit(s[8])
        && is_digit(s[9]) {
        Some(
            (
                digit_val(s[0]) * 1000 + digit_val(s[1]) * 100 + digit_val(s[2]) * 10 + digit_val(
                    s[3],
                ),
                digit_val(s[5]) * 10 + digit_val(s[6]),
                digit_val(s[8]) * 10 + digit_val(s[9]),
            ),
        )
    } else {
        None
    }
}

/// Decides whether a candidate date string in `YYYY-MM-DD` form names
/// the same date as `today`: true exactly when the candidate parses
/// and its year, month and day each equal the key's, numerically.
pub fn is_today(candidate: &str, today: &DateKey) -> (r: bool)
    ensures
        r == (spec_parse_date(candidate@) matches Some(t) && t.0 == today.year as int && t.1
            == today.month as int && t.2 == today.day as int),
{
    if candidate.unicode_len() != 10 {
        return false;
    }
    let c0 = candidate.get_char(0);
    let c1 = candidate.get_char(1);
    let c2 = candidate.get_char(2);
    let c3 = candidate.get_char(3);
    let d4 = candidate.get_char(4);
    let c5 = candidate.get_char(5);
    let c6 = candidate.get_char(6);
    let d7 = candidate.get_char(7);
    let c8 = candidate.get_char(8);
    let c9 = candidate.get_char(9);
    if !(digit_ok(c0) && digit_ok(c1) && digit_ok(c2) && digit_ok(c3) && d4 == '-' && digit_ok(c5)
        && digit_ok(c6) && d7 == '-' && digit_ok(c8) && digit_ok(c9)) {
        return false;
    }
    let year: i32 = (val_of(c0) * 1000 + val_of(c1) * 100 + val_of(c2) * 10 + val_of(c3)) as i32;
    let month: i32 = (val_of(c5) * 10 + val_of(c6)) as i32;
    let day: i32 = (val_of(c8) * 10 + val_of(c9)) as i32;
    year == today.year && month == today.month as i32 && day == today.day as i32
}

/// Decides `is_digit`.
fn digit_ok(c: char) -> (r: bool)
    ensures
        r == is_digit(c),
{
    ('0' as u32) <= (c as u32) && (c as u32) <= ('9' as u32)
}

/// The numeric value of a digit character.
fn val_of(c: char) -> (r: u32)
    requires
        is_digit(c),
    ensures
        r == digit_val(c),
        r <= 9,
{
    (c as u32) - ('0' as u32)
}

/// Appends the component delimiter of a date key.
fn append_underscore(s: &mut String)
    ensures
        final(s)@ == old(s)@ + seq!['_'],
{
    proof {
        reveal_strlit("_");
        assert("_"@ =~= seq!['_']);
    }
    s.append("_");
}

/// The characters of a page's file name stem derived from a
/// `dateAdded` string: the part before the first `T`, with dashes
/// turned into underscores.
pub open spec fn fname_chars(s: Seq<char>) -> Seq<char>
    decreases s.len(),
{
    if s.len() == 0 {
        Seq::empty()
    } else if s[0] == 'T' {
        Seq::empty()
    } else {
        seq![if s[0] == '-' { '_' } else { s[0] }] + fname_chars(s.drop_first())
    }
}

/// The file name of the page generated for a quote: its date part in
/// `YYYY_MM_DD` form followed by `.html`.
pub open spec fn spec_file_name(s: Seq<char>) -> Seq<char> {
    fname_chars(s) + ".html"@
}

/// Derives the HTML file name for a quote from its `dateAdded` string:
/// the part before the first `T`, dashes replaced by underscores, with
/// the `.html` extension appended.
pub fn html_file_name(date_added: &str) -> (r: String)
    ensures
        r@ == spec_file_name(date_added@),
{
    let n = date_added.unicode_len();
    let mut out = String::new();
    let mut i: usize = 0;
    proof {
        assert(date_added@.skip(0) =~= date_added@);
    }
    while i < n
        invariant
            n == date_added@.len(),
            0 <= i <= n,
            fname_chars(date_added@) =~= out@ + fname_chars(date_added@.skip(i as int)),
        ensures
            out@ =~= fname_chars(date_added@),
        decreases n - i,
    {
        let c = date_added.get_char(i);
        if c == 'T' {
            proof {
                assert(fname_chars(date_added@.skip(i as int)) =~= Seq::<char>::empty());
            }
            break;
        }
        if c == '-' {
            append_underscore(&mut out);
        } else {
            out.append(date_added.substring_char(i, i + 1));
            proof {
                assert(date_added@.subrange(i as int, i + 1) =~= seq![date_added@[i as int]]);
            }
        }
        proof {
            assert(date_added@.skip(i as int).drop_first() =~= date_added@.skip(i + 1));
        }
        i = i + 1;
    }
    out.append(".html");
    out
}

/// Relies on `dtt::datetime::DateTime::new` (the current UTC instant)
/// and its `year`, `month` and `day` accessors; the `time` crate's
/// `Date` underneath keeps the year within ±9999, the month within 1
/// through 12 and the day within 1 through 31.
#[verifier::external_body]
fn now_ymd() -> (r: (i32, u8, u8))
    ensures
        -9999 <= r.0 <= 9999,
        1 <= r.1 <= 12,
        1 <= r.2 <= 31,
{
    let dt = dtt::DateTime::new();
    (dt.year(), dt.month() as u8, dt.day())
}

} // verus!
