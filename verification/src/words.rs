//! Numbers, dates and errors in the words the screens use.

use crate::engine;
use crate::engine::lower;
use crate::fields;
use crate::fields::contains;
use crate::text;
use crate::text::{chars_of, decimal, text_of};
use vstd::prelude::*;

verus! {

/// "1 file", "3 files".
pub open spec fn counted(n: nat, noun: Seq<char>) -> Seq<char> {
    if n == 1 {
        "1 "@ + noun
    } else {
        text::dec(n) + " "@ + noun + "s"@
    }
}

pub fn plural(n: usize, noun: &str) -> (s: String)
    ensures
        s@ == counted(n as nat, noun@),
{
    if n == 1 {
        let mut s = String::from_str("1 ");
        s.append(noun);
        s
    } else {
        let mut s = decimal(n as u64);
        s.append(" ");
        s.append(noun);
        s.append("s");
        s
    }
}

/// `n` below a thousand, in three digits.
pub open spec fn three(n: nat) -> Seq<char> {
    seq![text::digit(n / 100), text::digit(n / 10 % 10), text::digit(n % 10)]
}

/// `n` with a comma before every third digit from the right.
pub open spec fn grouped(n: nat) -> Seq<char>
    decreases n,
{
    if n < 1000 {
        text::dec(n)
    } else {
        grouped(n / 1000) + ","@ + three(n % 1000)
    }
}

/// Two digits, the first a zero where the number is below ten.
pub open spec fn two(n: nat) -> Seq<char> {
    if n < 10 {
        "0"@ + text::dec(n)
    } else {
        text::dec(n)
    }
}

fn two_digits(n: u64) -> (s: String)
    ensures
        s@ == two(n as nat),
{
    if n < 10 {
        let mut s = String::from_str("0");
        s.append(decimal(n).as_str());
        s
    } else {
        decimal(n)
    }
}

fn three_digits(n: u64) -> (s: String)
    requires
        n < 1000,
    ensures
        s@ == three(n as nat),
{
    let mut s = decimal(n / 100);
    s.append(decimal(n / 10 % 10).as_str());
    s.append(decimal(n % 10).as_str());
    assert(s@ =~= three(n as nat));
    s
}

/// 214000 as "214,000".
pub fn thousands(n: u64) -> (s: String)
    ensures
        s@ == grouped(n as nat),
    decreases n,
{
    if n < 1000 {
        decimal(n)
    } else {
        let mut s = thousands(n / 1000);
        s.append(",");
        s.append(three_digits(n % 1000).as_str());
        s
    }
}

/// At most `max` characters of `s`: the end of it, behind an ellipsis, where it is longer.
pub open spec fn shortened(s: Seq<char>, max: nat) -> Seq<char> {
    if s.len() <= max {
        s
    } else {
        "…"@ + s.skip(s.len() - max + 1)
    }
}

pub fn shorten(s: &str, max: usize) -> (r: String)
    requires
        max > 0,
    ensures
        r@ == shortened(s@, max as nat),
{
    let cs = chars_of(s);
    if cs.len() <= max {
        String::from_str(s)
    } else {
        let mut r = String::from_str("…");
        let from: usize = cs.len() - max + 1;
        let tail = fields::slice(cs.as_slice(), from, cs.len());
        r.append(text_of(tail.as_slice()).as_str());
        assert(tail@ =~= s@.skip(s@.len() - max + 1));
        r
    }
}

/// What an error says to someone who did not write the program; `low` is it in lower case.
pub open spec fn plain_error(e: Seq<char>, low: Seq<char>) -> Seq<char> {
    if fields::occurs(low, "verify failed"@) {
        "didn't copy correctly — Continue will redo it"@
    } else if fields::occurs(low, "permission denied"@) {
        "permission denied"@
    } else if fields::occurs(low, "no space"@) || fields::occurs(low, "won't fit"@) {
        e
    } else if fields::occurs(low, "no such file"@) {
        "the file went away before it could be copied"@
    } else if fields::occurs(low, "source not removed"@) {
        "copied, but the original couldn't be deleted"@
    } else {
        e
    }
}

/// Whether `needle` stands in `hay`.
pub fn mentions(hay: &Vec<char>, needle: &str) -> (r: bool)
    ensures
        r == fields::occurs(hay@, needle@),
{
    contains(hay.as_slice(), chars_of(needle).as_slice())
}

/// Words an error for the reader, its lower-case form given.
pub fn humanize_lowered(e: &str, low: &str) -> (r: String)
    ensures
        r@ == plain_error(e@, low@),
{
    let l = chars_of(low);
    if mentions(&l, "verify failed") {
        String::from_str("didn't copy correctly — Continue will redo it")
    } else if mentions(&l, "permission denied") {
        String::from_str("permission denied")
    } else if mentions(&l, "no space") || mentions(&l, "won't fit") {
        String::from_str(e)
    } else if mentions(&l, "no such file") {
        String::from_str("the file went away before it could be copied")
    } else if mentions(&l, "source not removed") {
        String::from_str("copied, but the original couldn't be deleted")
    } else {
        String::from_str(e)
    }
}

/// Words an error for the reader.
pub fn humanize_error(e: &str) -> (r: String)
    ensures
        r@ == plain_error(e@, engine::lower_text(e@)),
{
    humanize_lowered(e, lower(e).as_str())
}

// ── dates ────────────────────────────────────────────────────────────────────
/// A minute of a day of the calendar.
pub struct Moment {
    pub year: u64,
    pub month: u64,
    pub day: u64,
    pub hour: u64,
    pub minute: u64,
}

pub open spec fn leap(y: int) -> bool {
    y % 4 == 0 && (y % 100 != 0 || y % 400 == 0)
}

pub open spec fn month_len(y: int, m: int) -> int {
    if m == 2 {
        if leap(y) {
            29
        } else {
            28
        }
    } else if m == 4 || m == 6 || m == 9 || m == 11 {
        30
    } else {
        31
    }
}

/// The days of year `y` before month `m`.
pub open spec fn days_before_month(y: int, m: int) -> int
    decreases m,
{
    if m <= 1 {
        0
    } else {
        days_before_month(y, m - 1) + month_len(y, m - 1)
    }
}

/// The days from the start of 1970 to the start of year `y`: every year has 365, and every
/// leap year before `y` one more.
pub open spec fn days_before_year(y: int) -> int {
    365 * (y - 1970) + ((y - 1) / 4 - (y - 1) / 100 + (y - 1) / 400) - 477
}

impl Moment {
    /// A day that the calendar has.
    pub open spec fn valid(self) -> bool {
        &&& 1 <= self.month <= 12
        &&& 1 <= self.day <= month_len(self.year as int, self.month as int)
        &&& self.hour < 24
        &&& self.minute < 60
    }

    /// The days since the first of January 1970.
    pub open spec fn day_number(self) -> int {
        days_before_year(self.year as int) + days_before_month(self.year as int, self.month as int)
            + self.day - 1
    }

    /// The seconds at which it begins, in universal time.
    pub open spec fn seconds(self) -> int {
        self.day_number() * 86_400 + self.hour * 3600 + self.minute * 60
    }

    /// `YYYY-MM-DD HH:MM`.
    pub open spec fn text(self) -> Seq<char> {
        let y = if self.year < 1000 {
            "0"@ + three(self.year as nat)
        } else {
            text::dec(self.year as nat)
        };
        y + "-"@ + two(self.month as nat) + "-"@ + two(self.day as nat) + " "@ + two(
            self.hour as nat,
        ) + ":"@ + two(self.minute as nat)
    }

    pub fn stamp(&self) -> (s: String)
        ensures
            s@ == self.text(),
    {
        let mut s = if self.year < 1000 {
            let mut z = String::from_str("0");
            z.append(three_digits(self.year).as_str());
            z
        } else {
            decimal(self.year)
        };
        s.append("-");
        s.append(two_digits(self.month).as_str());
        s.append("-");
        s.append(two_digits(self.day).as_str());
        s.append(" ");
        s.append(two_digits(self.hour).as_str());
        s.append(":");
        s.append(two_digits(self.minute).as_str());
        s
    }
}

fn is_leap(y: u64) -> (r: bool)
    ensures
        r == leap(y as int),
{
    y % 4 == 0 && (y % 100 != 0 || y % 400 == 0)
}

fn days_in(y: u64, m: u64) -> (r: u64)
    ensures
        r == month_len(y as int, m as int),
{
    if m == 2 {
        if is_leap(y) {
            29
        } else {
            28
        }
    } else if m == 4 || m == 6 || m == 9 || m == 11 {
        30
    } else {
        31
    }
}

/// How many days lie before a year that stands `c` centuries, `q` spans of four and `n` years
/// behind 1601 plus `e` times four hundred.
proof fn lemma_year_start(e: int, c: int, q: int, n: int)
    requires
        e >= 0,
        0 <= c < 4,
        0 <= q < 25,
        0 <= n < 4,
    ensures
        days_before_year(1601 + 400 * e + 100 * c + 4 * q + n) == 146_097 * e + 36_524 * c + 1461 * q
            + 365 * n - 134_774,
        leap(1601 + 400 * e + 100 * c + 4 * q + n) == (n == 3 && (q < 24 || c == 3)),
{
    let y = 1601 + 400 * e + 100 * c + 4 * q + n;
    assert(y - 1 == 4 * (400 + 100 * e + 25 * c + q) + n);
    assert((y - 1) / 4 == 400 + 100 * e + 25 * c + q);
    assert(y - 1 == 100 * (16 + 4 * e + c) + (4 * q + n));
    assert((y - 1) / 100 == 16 + 4 * e + c);
    assert(y - 1 == 400 * (4 + e) + (100 * c + 4 * q + n));
    assert((y - 1) / 400 == 4 + e);
    assert(y == 4 * (400 + 100 * e + 25 * c + q) + n + 1);
    assert((y % 4 == 0) == (n == 3));
    assert(y == 100 * (16 + 4 * e + c) + (4 * q + n + 1));
    assert((y % 100 == 0) == (4 * q + n + 1 == 100));
    assert(y == 400 * (4 + e) + (100 * c + 4 * q + n + 1));
    assert((y % 400 == 0) == (100 * c + 4 * q + n + 1 == 400));
}

proof fn lemma_months(y: int)
    ensures
        days_before_month(y, 13) == if leap(y) {
            366int
        } else {
            365int
        },
{
    reveal_with_fuel(days_before_month, 14);
}

/// The minute of the calendar in which second `secs` after the start of 1970 falls, in
/// universal time.
pub fn moment_utc(secs: u64) -> (m: Moment)
    ensures
        m.valid(),
        m.seconds() <= secs < m.seconds() + 60,
{
    let days: u64 = secs / 86_400;
    let rem: u64 = secs % 86_400;
    // Counted from the first of January 1601, with which a span of four hundred years begins.
    let z: u64 = days + 134_774;
    let e: u64 = z / 146_097;
    let in_e: u64 = z % 146_097;
    let c: u64 = if in_e / 36_524 > 3 {
        3
    } else {
        in_e / 36_524
    };
    let in_c: u64 = in_e - c * 36_524;
    let q: u64 = in_c / 1461;
    let in_q: u64 = in_c % 1461;
    let n: u64 = if in_q / 365 > 3 {
        3
    } else {
        in_q / 365
    };
    let in_n: u64 = in_q - n * 365;
    assert(q < 25);
    let year: u64 = 1601 + 400 * e + 100 * c + 4 * q + n;
    proof {
        lemma_year_start(e as int, c as int, q as int, n as int);
        lemma_months(year as int);
    }
    assert(in_n <= 365);
    assert(in_n == 365 ==> leap(year as int));
    let mut month: u64 = 1;
    let mut left: u64 = in_n;
    assert(days_before_year(year as int) + in_n == days);
    while month < 12 && left >= days_in(year, month)
        invariant
            1 <= month <= 12,
            left + days_before_month(year as int, month as int) == in_n,
            in_n < days_before_month(year as int, 13),
        decreases 12 - month,
    {
        left = left - days_in(year, month);
        month = month + 1;
    }
    assert(left < month_len(year as int, month as int));
    let m = Moment { year, month, day: left + 1, hour: rem / 3600, minute: rem % 3600 / 60 };
    assert(m.day_number() == days);
    m
}

/// The date column of a file whose time is unknown, or before 1970, is empty; else it is the
/// minute in universal time.
pub fn fmt_mtime(secs: i64) -> (s: String)
    ensures
        secs <= 0 ==> s@ == Seq::<char>::empty(),
        secs > 0 ==> exists|m: Moment|
            m.valid() && m.seconds() <= secs < m.seconds() + 60 && s@ == #[trigger] m.text(),
{
    if secs <= 0 {
        return String::new();
    }
    let m = moment_utc(secs as u64);
    let s = m.stamp();
    assert(s@ == m.text());
    s
}

/// A moment is known by the second at which it begins.
pub proof fn law_one_moment_per_minute(a: Moment, b: Moment)
    requires
        a.valid(),
        b.valid(),
        a.year >= 1970,
        b.year >= 1970,
        a.seconds() == b.seconds(),
    ensures
        a == b,
{
    assert(a.day_number() == b.day_number() && a.hour == b.hour && a.minute == b.minute);
    lemma_day_in_year(a);
    lemma_day_in_year(b);
    if a.year < b.year {
        lemma_years_grow(a.year + 1, b.year as int);
    } else if b.year < a.year {
        lemma_years_grow(b.year + 1, a.year as int);
    }
    lemma_month_in_year(a.year as int, a.month as int, b.month as int);
    lemma_month_in_year(a.year as int, b.month as int, a.month as int);
}

proof fn lemma_day_in_year(m: Moment)
    requires
        m.valid(),
        m.year >= 1,
    ensures
        days_before_year(m.year as int) <= m.day_number() < days_before_year(m.year + 1),
{
    let y = m.year as int;
    lemma_months(y);
    reveal_with_fuel(days_before_month, 14);
    lemma_next_year(y);
}

proof fn lemma_next_year(y: int)
    requires
        y >= 1,
    ensures
        days_before_year(y + 1) == days_before_year(y) + (if leap(y) {
            366int
        } else {
            365int
        }),
{
}

proof fn lemma_years_grow(a: int, b: int)
    requires
        1 <= a <= b,
    ensures
        days_before_year(a) <= days_before_year(b),
    decreases b - a,
{
    if a < b {
        lemma_next_year(a);
        lemma_years_grow(a + 1, b);
    }
}

proof fn lemma_month_in_year(y: int, m: int, n: int)
    requires
        1 <= m <= 12,
        1 <= n <= 12,
    ensures
        m < n ==> days_before_month(y, m) + month_len(y, m) <= days_before_month(y, n),
    decreases n,
{
    if m < n {
        if m < n - 1 {
            lemma_month_in_year(y, m, n - 1);
        }
    }
}

/// How many lines of a longer list went unshown, where any did.
pub open spec fn unshown(total: nat, shown: nat) -> Option<nat> {
    if total > shown {
        Some((total - shown) as nat)
    } else {
        None
    }
}

/// "…and 3 more", where only the first `shown` of `total` lines are printed.
pub fn more_note(total: usize, shown: usize) -> (r: Option<String>)
    ensures
        match unshown(total as nat, shown as nat) {
            Some(n) => r is Some && r->0@ == "…and "@ + text::dec(n) + " more"@,
            None => r is None,
        },
{
    if total > shown {
        let mut s = String::from_str("…and ");
        s.append(decimal((total - shown) as u64).as_str());
        s.append(" more");
        Some(s)
    } else {
        None
    }
}

} // verus!
