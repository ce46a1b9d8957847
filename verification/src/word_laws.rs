//! What numbers, sizes, times and dates say once they are written out.

use crate::fields;
use crate::size;
use crate::text;
use crate::words;
use crate::words::Moment;
use vstd::prelude::*;

verus! {

// ── digits ───────────────────────────────────────────────────────────────────
/// What a digit is worth.
pub open spec fn worth(c: char) -> int {
    if '0' <= c <= '9' {
        c as int - '0' as int
    } else {
        c as int - 'a' as int + 10
    }
}

/// The number that these digits write, commas passed over.
pub open spec fn number_of(s: Seq<char>, base: int) -> int
    decreases s.len(),
{
    if s.len() == 0 {
        0
    } else if s.last() == ',' {
        number_of(s.drop_last(), base)
    } else {
        number_of(s.drop_last(), base) * base + worth(s.last())
    }
}

/// A number in decimal reads back as itself, and does not begin with a zero unless it is one.
pub proof fn law_decimal_reads_back(n: nat)
    ensures
        number_of(text::dec(n), 10) == n,
        text::dec(n).len() > 0,
        n > 0 ==> text::dec(n)[0] != '0',
        forall|i: int| 0 <= i < text::dec(n).len() ==> '0' <= (#[trigger] text::dec(n)[i]) <= '9',
    decreases n,
{
    if n < 10 {
        let s = text::dec(n);
        assert(s.drop_last() =~= Seq::empty());
        assert(number_of(s.drop_last(), 10) == 0);
    } else {
        law_decimal_reads_back(n / 10);
        let s = text::dec(n);
        assert(s.drop_last() =~= text::dec(n / 10));
        assert(s[0] == text::dec(n / 10)[0]);
    }
}

pub open spec fn sixteens(w: nat) -> nat
    decreases w,
{
    if w == 0 {
        1
    } else {
        16 * sixteens((w - 1) as nat)
    }
}

/// A number in so many hexadecimal digits reads back as itself, where they suffice.
pub proof fn law_hexadecimal_reads_back(n: nat, w: nat)
    requires
        n < sixteens(w),
    ensures
        text::hex(n, w).len() == w,
        number_of(text::hex(n, w), 16) == n,
    decreases w,
{
    if w > 0 {
        law_hexadecimal_reads_back(n / 16, (w - 1) as nat);
        let s = text::hex(n, w);
        assert(s.drop_last() =~= text::hex(n / 16, (w - 1) as nat));
        assert(s.last() != ',');
    }
}

/// Two digests that are written alike are alike.
pub proof fn law_digests_are_told_apart(a: u128, b: u128)
    ensures
        text::hex(a as nat, 32) == text::hex(b as nat, 32) ==> a == b,
        text::hex(a as nat, 32).len() == 32,
{
    reveal_with_fuel(sixteens, 33);
    law_hexadecimal_reads_back(a as nat, 32);
    law_hexadecimal_reads_back(b as nat, 32);
}

/// A number with commas reads back as itself, and a comma stands before each last three digits.
pub proof fn law_grouped_reads_back(n: nat)
    ensures
        number_of(words::grouped(n), 10) == n,
        n >= 1000 ==> words::grouped(n).len() > 4 && words::grouped(n)[words::grouped(n).len() - 4]
            == ',',
        n < 1000 ==> words::grouped(n) == text::dec(n),
        words::grouped(n).len() > 0,
    decreases n,
{
    if n < 1000 {
        law_decimal_reads_back(n);
    } else {
        reveal_strlit(",");
        law_grouped_reads_back(n / 1000);
        let g = words::grouped(n / 1000);
        let s = words::grouped(n);
        let r = n % 1000;
        let a = s.drop_last();
        let b = a.drop_last();
        let c = b.drop_last();
        let d = c.drop_last();
        assert(s.last() == text::digit(r % 10));
        assert(a.last() == text::digit(r / 10 % 10));
        assert(b.last() == text::digit(r / 100));
        assert(c.last() == ',');
        assert(d =~= g);
        assert(number_of(c, 10) == n / 1000);
        assert(r / 100 < 10 && r / 10 % 10 < 10 && r % 10 < 10);
        assert(worth(s.last()) == r % 10);
        assert(worth(a.last()) == r / 10 % 10);
        assert(worth(b.last()) == r / 100);
        assert(number_of(b, 10) == n / 1000 * 10 + r / 100);
        assert(number_of(a, 10) == (n / 1000 * 10 + r / 100) * 10 + r / 10 % 10);
    }
}

/// A text that fits stays whole; of a longer one the end is shown, in just as many characters
/// as there is room for.
pub proof fn law_the_end_of_a_long_text_is_shown(s: Seq<char>, max: nat)
    requires
        max > 0,
    ensures
        words::shortened(s, max).len() <= max,
        s.len() <= max ==> words::shortened(s, max) == s,
        s.len() > max ==> words::shortened(s, max).len() == max && words::shortened(
            s,
            max,
        ).skip(1) == s.skip(s.len() - (max - 1)),
{
    reveal_strlit("…");
    if s.len() > max {
        assert(words::shortened(s, max).skip(1) =~= s.skip(s.len() - (max - 1)));
    }
}

/// What goes unshown and what is shown are together all there is.
pub proof fn law_nothing_unshown_is_lost(total: nat, shown: nat)
    ensures
        words::unshown(total, shown) is None <==> total <= shown,
        words::unshown(total, shown) matches Some(n) ==> n + shown == total,
{
}

// ── dates ────────────────────────────────────────────────────────────────────
/// A year has 366 days where it divides by four and not by a hundred, or by four hundred, and
/// 365 otherwise; the count begins with 1970.
pub proof fn law_how_long_a_year_is(y: int)
    requires
        y >= 1,
    ensures
        words::days_before_year(1970) == 0,
        words::days_before_year(y + 1) - words::days_before_year(y) == (if y % 400 == 0 || (y % 4
            == 0 && y % 100 != 0) {
            366int
        } else {
            365int
        }),
        words::days_before_month(y, 13) == words::days_before_year(y + 1)
            - words::days_before_year(y),
{
    reveal_with_fuel(words::days_before_month, 14);
}

/// The months follow each other by their lengths.
pub proof fn law_how_long_a_month_is(y: int, m: int)
    requires
        1 <= m <= 12,
    ensures
        words::days_before_month(y, 1) == 0,
        words::days_before_month(y, m + 1) - words::days_before_month(y, m) == words::month_len(
            y,
            m,
        ),
        m == 1 || m == 3 || m == 5 || m == 7 || m == 8 || m == 10 || m == 12 ==> words::month_len(
            y,
            m,
        ) == 31,
        m == 4 || m == 6 || m == 9 || m == 11 ==> words::month_len(y, m) == 30,
        m == 2 ==> words::month_len(y, m) == (if y % 400 == 0 || (y % 4 == 0 && y % 100 != 0) {
            29int
        } else {
            28int
        }),
{
}

/// A minute later is sixty seconds more, an hour later 3600, a day later 86400.
pub proof fn law_how_moments_follow(a: Moment, b: Moment)
    requires
        a.year == b.year,
        a.month == b.month,
    ensures
        b.seconds() - a.seconds() == (b.day - a.day) * 86_400 + (b.hour - a.hour) * 3600 + (b.minute
            - a.minute) * 60,
{
    let d = b.day - a.day;
    assert(b.day_number() - a.day_number() == d);
    assert(b.day_number() * 86_400 - a.day_number() * 86_400 == d * 86_400) by (nonlinear_arith)
        requires
            b.day_number() - a.day_number() == d,
    ;
}

// ── how long ─────────────────────────────────────────────────────────────────
/// A time is told in minutes, to the nearest, and from an hour on in hours and minutes.
pub proof fn law_a_time_is_told_to_the_minute(secs: u64) -> (t: (nat, nat))
    ensures
        secs < 60 ==> size::eta_text(secs) == "less than a minute"@,
        60 <= secs < 3600 ==> t.0 == 0 && -30 <= 60 * t.1 - secs <= 30 && size::eta_text(secs)
            == "about "@ + text::dec(t.1) + (if t.1 == 1 {
            " minute"@
        } else {
            " minutes"@
        }),
        secs >= 3600 ==> -30 <= 3600 * t.0 + 60 * t.1 - secs <= 30 && t.1 <= 60
            && size::eta_text(secs) == "about "@ + text::dec(t.0) + " h "@ + text::dec(t.1) + " m"@,
{
    if secs < 3600 {
        (0, (secs as nat + 30) / 60)
    } else {
        (secs as nat / 3600, (secs as nat % 3600 + 30) / 60)
    }
}

/// Rounding is to the nearest: off by half at most, and to the even one of two equally near.
pub proof fn law_near_is_nearest(n: nat, d: nat)
    requires
        d > 0,
    ensures
        2 * (size::near(n, d) * d - n) <= d,
        2 * (n - size::near(n, d) * d) <= d,
        2 * (size::near(n, d) * d - n) == d || 2 * (n - size::near(n, d) * d) == d
            ==> size::near(n, d) % 2 == 0,
{
    let q = n / d;
    let r = n % d;
    assert(n == q * d + r && 0 <= r < d) by (nonlinear_arith)
        requires
            q == n / d,
            r == n % d,
            d > 0,
    ;
    assert((q + 1) * d == q * d + d) by (nonlinear_arith);
    if size::near(n, d) == q {
        assert(size::near(n, d) * d == q * d);
    } else {
        assert(size::near(n, d) * d == (q + 1) * d);
    }
}

/// A quotient is kept in 53 significant bits: it is off by at most half of the last one. So with
/// a quotient below 2^53 the fraction kept is `n / d` to within one part in 2^53.
pub proof fn law_a_quotient_is_kept_in_53_bits(n: nat, d: nat)
    requires
        n > 0,
        d > 0,
        n < d * 9_007_199_254_740_992,
    ensures
        ({
            let v = size::rounded(n, d);
            &&& v.den > 0
            &&& v.num >= 4_503_599_627_370_496
            &&& 2 * (v.num * d - n * v.den) <= d
            &&& 2 * (n * v.den - v.num * d) <= d
        }),
{
    let floor = d * size::LOW as nat;
    let s = size::doublings(n, floor);
    let p = size::pow2(s);
    assert(floor > 0) by (nonlinear_arith)
        requires
            d > 0,
            floor == d * size::LOW as nat,
    ;
    lemma_doubled(n, floor);
    assert(n * p >= floor);
    lemma_power(s);
    law_near_is_nearest(n * p, d);
    let v = size::rounded(n, d);
    assert(v.num == size::near(n * p, d) && v.den == p);
    let k = size::LOW as int;
    assert(v.num >= k) by (nonlinear_arith)
        requires
            2 * (n * p - v.num * d) <= d,
            n * p >= d * k,
            d > 0,
    ;
}

proof fn lemma_power(s: nat)
    ensures
        size::pow2(s) > 0,
    decreases s,
{
    if s > 0 {
        lemma_power((s - 1) as nat);
    }
}

proof fn lemma_doubled(n: nat, floor: nat)
    requires
        n > 0,
    ensures
        n * size::pow2(size::doublings(n, floor)) >= floor,
    decreases 2 * floor - n,
{
    if n < floor {
        lemma_doubled(2 * n, floor);
        let s = size::doublings(2 * n, floor);
        assert(size::pow2((s + 1) as nat) == 2 * size::pow2(s));
        assert(n * (2 * size::pow2(s)) == (2 * n) * size::pow2(s)) by (nonlinear_arith);
    } else {
        assert(size::pow2(0) == 1);
        assert(n * 1 == n);
    }
}

/// The seconds left, times the rate, are the bytes left: to within half a second's worth, and
/// what one part in 2^53 makes of it.
pub proof fn law_the_seconds_left_fit_the_bytes(remaining: u64, rate: u64)
    requires
        0 < remaining < 9_007_199_254_740_992,
        0 < rate < 9_007_199_254_740_992,
    ensures
        ({
            let secs = size::eta_secs(remaining, rate) as int;
            &&& 2 * (secs * rate - remaining) <= 2 * rate
            &&& 2 * (remaining - secs * rate) <= 2 * rate
        }),
{
    let n = remaining as nat;
    let d = rate as nat;
    assert(n < d * 9_007_199_254_740_992) by (nonlinear_arith)
        requires
            n < 9_007_199_254_740_992,
            d >= 1,
    ;
    law_a_quotient_is_kept_in_53_bits(n, d);
    let v = size::rounded(n, d);
    assert(size::float(n).num == n && size::float(d).num == d);
    let q = (2 * v.num + v.den) / (2 * v.den);
    let e = 2 * v.den;
    assert(q * e <= 2 * v.num + v.den < q * e + e) by (nonlinear_arith)
        requires
            q == (2 * v.num + v.den) / (e as nat),
            e > 0,
    ;
    // In units of the fraction kept: q is within half of v, and v within half a bit of n / d.
    assert(2 * (q * v.den - v.num) <= v.den && 2 * (v.num - q * v.den) < v.den) by (nonlinear_arith)
        requires
            q * e <= 2 * v.num + v.den < q * e + e,
            e == 2 * v.den,
    ;
    let a = q * v.den - v.num;
    let b = v.num * d - n * v.den;
    assert(q * d * v.den - n * v.den == a * d + b) by (nonlinear_arith)
        requires
            a == q * v.den - v.num,
            b == v.num * d - n * v.den,
    ;
    assert(2 * (a * d) <= v.den * d && -(v.den * d) <= 2 * (a * d)) by (nonlinear_arith)
        requires
            2 * a <= v.den,
            -(v.den as int) <= 2 * a,
            d > 0,
    ;
    assert(d <= v.den * d) by (nonlinear_arith)
        requires
            v.den >= 1,
    ;
    assert(q * d - n <= d && n - q * d <= d) by (nonlinear_arith)
        requires
            q * d * v.den - n * v.den == a * d + b,
            2 * (a * d) <= v.den * d,
            -(v.den * d) <= 2 * (a * d),
            2 * b <= d,
            -d <= 2 * b,
            d <= v.den * d,
            v.den >= 1,
    ;
    assert(q <= n + 1) by (nonlinear_arith)
        requires
            q * d - n <= d,
            d >= 1,
            q >= 0,
    ;
}

// ── errors and counts ────────────────────────────────────────────────────────
/// What the system says of missing space is told as it is, and so is whatever the program knows
/// no better words for. A failed check comes before everything else, and a refused permission
/// before what is left.
pub proof fn law_which_errors_are_told_as_they_are(e: Seq<char>, low: Seq<char>)
    ensures
        ({
            let said = words::plain_error(e, low);
            let failed = fields::occurs(low, "verify failed"@);
            let denied = fields::occurs(low, "permission denied"@);
            let full = fields::occurs(low, "no space"@) || fields::occurs(low, "won't fit"@);
            let gone = fields::occurs(low, "no such file"@);
            let stays = fields::occurs(low, "source not removed"@);
            &&& full && !failed && !denied ==> said == e
            &&& !failed && !denied && !gone && !stays ==> said == e
            &&& failed ==> said == "didn't copy correctly — Continue will redo it"@
            &&& denied && !failed ==> said == "permission denied"@
            &&& gone && !failed && !denied && !full ==> said
                == "the file went away before it could be copied"@
            &&& stays && !failed && !denied && !full && !gone ==> said
                == "copied, but the original couldn't be deleted"@
        }),
{
}

/// One thing is counted without an ending, none or several with one, and the number comes first.
pub proof fn law_how_things_are_counted(n: nat, noun: Seq<char>)
    ensures
        n == 1 ==> words::counted(n, noun) == seq!['1', ' '] + noun,
        n != 1 ==> words::counted(n, noun) == text::dec(n) + seq![' '] + noun + seq!['s'],
{
    reveal_strlit("1 ");
    reveal_strlit(" ");
    reveal_strlit("s");
    assert("1 "@ =~= seq!['1', ' ']);
    assert(" "@ =~= seq![' ']);
    assert("s"@ =~= seq!['s']);
}

} // verus!
