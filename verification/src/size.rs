//! Sizes, speeds and durations for people to read.
//!
//! Quotients are taken in binary floating point with 53 significant bits, each rounded to the
//! nearest and halves to even, and are then printed with one decimal or none. Carrying a
//! value as an exact fraction keeps every step an integer computation.

use crate::text;
use crate::text::decimal;
use vstd::prelude::*;

verus! {

/// The integer nearest to `n / d`; of two equally near, the even one.
pub open spec fn near(n: nat, d: nat) -> nat {
    let q = n / d;
    let r = n % d;
    if 2 * r < d {
        q
    } else if 2 * r > d {
        q + 1
    } else if q % 2 == 0 {
        q
    } else {
        q + 1
    }
}

/// How often `n` has to be doubled to reach `floor`.
pub open spec fn doublings(n: nat, floor: nat) -> nat
    decreases 2 * floor - n,
{
    if n == 0 || n >= floor {
        0
    } else {
        1 + doublings(2 * n, floor)
    }
}

/// `2` to the power of `s`.
pub open spec fn pow2(s: nat) -> nat
    decreases s,
{
    if s == 0 {
        1
    } else {
        2 * pow2((s - 1) as nat)
    }
}

/// The smallest integer that takes 53 bits, and the first that takes 54.
pub const LOW: u128 = 4_503_599_627_370_496;

pub const HIGH: u128 = 9_007_199_254_740_992;

/// A non-negative fraction.
#[verifier::ext_equal]
pub struct Ratio {
    pub num: nat,
    pub den: nat,
}

/// `n / d` rounded to 53 significant bits.
pub open spec fn rounded(n: nat, d: nat) -> Ratio {
    if n == 0 {
        Ratio { num: 0, den: 1 }
    } else if n >= d * HIGH as nat {
        let j = doublings(d * HIGH as nat, n + 1);
        Ratio { num: near(n, d * pow2(j)) * pow2(j), den: 1 }
    } else {
        let s = doublings(n, d * LOW as nat);
        Ratio { num: near(n * pow2(s), d), den: pow2(s) }
    }
}

/// An integer in 53 significant bits.
pub open spec fn float(n: nat) -> Ratio {
    if n < HIGH {
        Ratio { num: n, den: 1 }
    } else {
        rounded(n, 1)
    }
}

/// `v / d` rounded to 53 significant bits.
pub open spec fn over(v: Ratio, d: nat) -> Ratio {
    rounded(v.num, v.den * d)
}

/// `v` with one decimal.
pub open spec fn one_decimal(v: Ratio) -> Seq<char> {
    let t = near(10 * v.num, v.den);
    text::dec(t / 10).push('.').push(text::digit(t % 10))
}

/// `v` divided by a thousand as often as it takes to get below a thousand, at most `most`
/// times, and how often that was.
pub open spec fn thousandfold(v: Ratio, done: nat, most: nat) -> (Ratio, nat)
    decreases most - done,
{
    if done < most && v.num >= 1000 * v.den {
        thousandfold(over(v, 1000), done + 1, most)
    } else {
        (v, done)
    }
}

/// The unit after so many divisions by a thousand.
pub open spec fn decimal_unit(i: nat) -> Seq<char> {
    if i == 1 {
        " kB"@
    } else if i == 2 {
        " MB"@
    } else if i == 3 {
        " GB"@
    } else {
        " TB"@
    }
}

/// A size in the units on a drive's label.
pub open spec fn human_text(bytes: u64) -> Seq<char> {
    let (v, i) = thousandfold(float(bytes as nat), 0, 4);
    if i == 0 {
        text::dec(bytes as nat) + " B"@
    } else {
        one_decimal(v) + decimal_unit(i)
    }
}

/// The unit after so many divisions by 1024.
pub open spec fn binary_unit(i: nat) -> Seq<char> {
    if i == 1 {
        " KiB"@
    } else if i == 2 {
        " MiB"@
    } else if i == 3 {
        " GiB"@
    } else {
        " TiB"@
    }
}

/// How often `v` has to be divided by 1024 to get below it, at most four times. Such a
/// division only moves the exponent, so it never rounds.
pub open spec fn kibi_steps(v: Ratio) -> nat {
    if v.num < 1024 * v.den {
        0
    } else if v.num < 1_048_576 * v.den {
        1
    } else if v.num < 1_073_741_824 * v.den {
        2
    } else if v.num < 1_099_511_627_776 * v.den {
        3
    } else {
        4
    }
}

pub open spec fn kibi(i: nat) -> nat {
    if i == 0 {
        1
    } else if i == 1 {
        1024
    } else if i == 2 {
        1_048_576
    } else if i == 3 {
        1_073_741_824
    } else {
        1_099_511_627_776
    }
}

/// A size in binary units.
pub open spec fn binary_text(bytes: u64) -> Seq<char> {
    let v = float(bytes as nat);
    let i = kibi_steps(v);
    if i == 0 {
        text::dec(bytes as nat) + " B"@
    } else {
        one_decimal(Ratio { num: v.num, den: v.den * kibi(i) }) + binary_unit(i)
    }
}

/// A size in billions of bytes, with one decimal.
pub open spec fn gigabytes_text(bytes: u64) -> Seq<char> {
    one_decimal(over(float(bytes as nat), 1_000_000_000))
}

// ── computing it ─────────────────────────────────────────────────────────────
struct Fraction {
    num: u128,
    den: u128,
}

impl Fraction {
    spec fn val(self) -> Ratio {
        Ratio { num: self.num as nat, den: self.den as nat }
    }
}

fn nearest(n: u128, d: u128) -> (q: u128)
    requires
        d > 0,
        n < u128::MAX,
        2 * d <= u128::MAX,
    ensures
        q == near(n as nat, d as nat),
        q <= n / d + 1,
{
    let q: u128 = n / d;
    let r: u128 = n % d;
    assert(q <= n) by (nonlinear_arith)
        requires
            q == n / d,
            d > 0,
    ;
    if 2 * r < d {
        q
    } else if 2 * r > d {
        q + 1
    } else if q % 2 == 0 {
        q
    } else {
        q + 1
    }
}

/// Bound on the numerators and denominators that are ever rounded.
spec fn small(n: nat, d: nat) -> bool {
    n <= 0x1_0000_0000_0000_0000_0000 && 0 < d <= 0x2_0000_0000_0000_0000
}

proof fn lemma_pow2_step(s: nat)
    ensures
        pow2(s + 1) == 2 * pow2(s),
        pow2(s) >= 1,
    decreases s,
{
    if s > 0 {
        lemma_pow2_step((s - 1) as nat);
    }
}

fn round53(n: u128, d: u128) -> (v: Fraction)
    requires
        small(n as nat, d as nat),
    ensures
        v.val() == rounded(n as nat, d as nat),
        1 <= v.den <= 0x40_0000_0000_0000 * 0x1_0000_0000_0000_0000,
        v.num <= 2 * n || v.num <= HIGH,
        v.den == 1 || v.num <= HIGH,
        n < d * HIGH ==> v.num <= HIGH,
        n >= d ==> v.den <= HIGH && v.num * d <= 2 * n * v.den,
{
    assert(d * HIGH <= 0x2_0000_0000_0000_0000 * HIGH && d * LOW <= 0x2_0000_0000_0000_0000 * LOW)
        by (nonlinear_arith)
        requires
            d <= 0x2_0000_0000_0000_0000,
    ;
    if n == 0 {
        return Fraction { num: 0, den: 1 };
    }
    if n >= d * HIGH {
        round_large(n, d)
    } else {
        round_small(n, d)
    }
}

fn round_large(n: u128, d: u128) -> (v: Fraction)
    requires
        small(n as nat, d as nat),
        n > 0,
        n >= d * HIGH,
    ensures
        v.val() == rounded(n as nat, d as nat),
        v.den == 1,
        v.num <= 2 * n,
        v.num * d <= 2 * n,
{
    let top: u128 = d * HIGH;
    let mut t: u128 = top;
    let mut p: u128 = 1;
    let ghost mut j: nat = 0;
    while t <= n
        invariant
            0 < top,
            t <= 2 * n,
            n <= 0x1_0000_0000_0000_0000_0000,
            t == top * p,
            p == pow2(j),
            1 <= p <= t,
            doublings(top as nat, (n + 1) as nat) == j + doublings(t as nat, (n + 1) as nat),
        decreases 2 * n - t,
    {
        proof {
            lemma_pow2_step(j);
            j = j + 1;
        }
        assert(2 * t == top * (2 * p)) by (nonlinear_arith)
            requires
                t == top * p,
        ;
        t = 2 * t;
        p = 2 * p;
    }
    assert(HIGH * (d * p) == t) by (nonlinear_arith)
        requires
            t == top * p,
            top == d * HIGH,
    ;
    let w: u128 = d * p;
    assert(w >= p && w > 0) by (nonlinear_arith)
        requires
            w == d * p,
            d > 0,
            p >= 1,
    ;
    let q = nearest(n, w);
    assert((n / w) * p <= n) by (nonlinear_arith)
        requires
            w >= p,
            p >= 1,
            n >= 0,
    ;
    assert(q * p <= (n / w) * p + p) by (nonlinear_arith)
        requires
            q <= n / w + 1,
            p >= 1,
    ;
    assert(p <= n);
    assert((q * p) * d <= 2 * n) by (nonlinear_arith)
        requires
            q <= n / w + 1,
            w == d * p,
            w > 0,
            HIGH * w <= 2 * n,
    {
        assert((q * p) * d == q * w);
        assert(q * w <= (n / w + 1) * w);
        assert((n / w + 1) * w == (n / w) * w + w);
        assert((n / w) * w <= n);
        assert(w <= n);
    }
    Fraction { num: q * p, den: 1 }
}

fn round_small(n: u128, d: u128) -> (v: Fraction)
    requires
        small(n as nat, d as nat),
        0 < n < d * HIGH,
    ensures
        v.val() == rounded(n as nat, d as nat),
        1 <= v.den <= 0x40_0000_0000_0000 * 0x1_0000_0000_0000_0000,
        v.num <= HIGH,
        n >= d ==> v.den <= HIGH && v.num * d <= 2 * n * v.den,
{
    assert(d * LOW <= 0x2_0000_0000_0000_0000 * LOW) by (nonlinear_arith)
        requires
            d <= 0x2_0000_0000_0000_0000,
    ;
    let floor: u128 = d * LOW;
    assert(2 * floor == d * HIGH) by (nonlinear_arith)
        requires
            floor == d * LOW,
    ;
    let mut t: u128 = n;
    let mut p: u128 = 1;
    let ghost mut s: nat = 0;
    while t < floor
        invariant
            n > 0,
            floor == d * LOW,
            floor <= 0x2_0000_0000_0000_0000 * LOW,
            t == n * p,
            p == pow2(s),
            1 <= p <= t,
            t < 2 * floor,
            n >= d ==> d * p <= t,
            doublings(n as nat, floor as nat) == s + doublings(t as nat, floor as nat),
        decreases 2 * floor - t,
    {
        proof {
            lemma_pow2_step(s);
            s = s + 1;
        }
        assert(2 * t == n * (2 * p) && 2 * (d * p) == d * (2 * p)) by (nonlinear_arith)
            requires
                t == n * p,
        ;
        t = 2 * t;
        p = 2 * p;
    }
    let q = nearest(t, d);
    assert(q <= HIGH) by (nonlinear_arith)
        requires
            q <= t / d + 1,
            t < d * HIGH,
            d > 0,
    ;
    if n >= d {
        assert(p <= HIGH) by (nonlinear_arith)
            requires
                d * p < d * HIGH,
                d > 0,
        ;
        assert(q * d <= 2 * n * p) by (nonlinear_arith)
            requires
                q <= t / d + 1,
                t == n * p,
                d > 0,
                n >= d,
                p >= 1,
        {
            assert(q * d <= (t / d + 1) * d);
            assert((t / d + 1) * d == (t / d) * d + d);
            assert((t / d) * d <= t);
            assert(d <= n * p);
            assert(2 * n * p == n * p + n * p);
        }
    }
    Fraction { num: q, den: p }
}

fn to_float(n: u64) -> (v: Fraction)
    ensures
        v.val() == float(n as nat),
        v.den == 1,
        v.num <= 0x2_0000_0000_0000_0000,
        n > 0 ==> v.num > 0,
{
    if (n as u128) < HIGH {
        Fraction { num: n as u128, den: 1 }
    } else {
        let v = round_large(n as u128, 1);
        proof {
            lemma_large_positive(n as nat);
        }
        v
    }
}

proof fn lemma_large_positive(n: nat)
    requires
        n >= HIGH,
    ensures
        rounded(n, 1).num > 0,
{
    let j = doublings(HIGH as nat, n + 1);
    lemma_doublings_end(HIGH as nat, n + 1, n);
    lemma_pow2_step(j);
    let w = pow2(j);
    assert(n / w >= 1) by (nonlinear_arith)
        requires
            w <= n,
            w >= 1,
    ;
    assert(near(n, w) * w > 0) by (nonlinear_arith)
        requires
            near(n, w) >= 1,
            w >= 1,
    ;
}

/// The power of two that `doublings` stops at does not pass `n`.
proof fn lemma_doublings_end(a: nat, floor: nat, n: nat)
    requires
        a >= 2,
        floor == n + 1,
        a <= n || doublings(a, floor) == 0,
        n >= 1,
    ensures
        pow2(doublings(a, floor)) <= n,
    decreases floor - a,
{
    if a < floor {
        lemma_double_bound(a, floor, n);
    }
}

proof fn lemma_double_bound(a: nat, floor: nat, n: nat)
    requires
        2 <= a < floor,
        floor == n + 1,
    ensures
        pow2(doublings(a, floor)) * a <= 2 * n,
        pow2(doublings(a, floor)) <= n,
    decreases floor - a,
{
    let s = doublings(2 * a, floor);
    lemma_pow2_step(s);
    if 2 * a < floor {
        lemma_double_bound(2 * a, floor, n);
        assert(pow2(s + 1) * a == pow2(s) * (2 * a)) by (nonlinear_arith)
            requires
                pow2(s + 1) == 2 * pow2(s),
        ;
    } else {
        assert(s == 0);
        assert(pow2(1) == 2);
    }
    assert(pow2(s + 1) <= n) by (nonlinear_arith)
        requires
            pow2(s + 1) * a <= 2 * n,
            a >= 2,
    ;
}

fn tenths_text(v: &Fraction) -> (s: String)
    requires
        1 <= v.den <= 0x40_0000_0000_0000 * 0x1_0000_0000_0000_0000,
        v.num <= 0x4_0000_0000_0000_0000,
        10 * v.num <= v.den * 0x1000_0000_0000_0000,
    ensures
        s@ == one_decimal(v.val()),
{
    let t = nearest(10 * v.num, v.den);
    assert(t <= 0x1000_0000_0000_0001) by (nonlinear_arith)
        requires
            t <= (10 * v.num) / (v.den as int) + 1,
            10 * v.num <= v.den * 0x1000_0000_0000_0000,
            v.den >= 1,
    ;
    let whole = (t / 10) as u64;
    let last = (t % 10) as u64;
    let mut s = decimal(whole);
    s.push('.');
    let ghost before = s@;
    s.append(decimal(last).as_str());
    assert(text::dec(last as nat) =~= seq![text::digit(last as nat)]);
    assert(s@ =~= before.push(text::digit(last as nat)));
    s
}

/// Sizes in decimal units, as drive labels and file managers have them.
pub fn human(bytes: u64) -> (s: String)
    ensures
        s@ == human_text(bytes),
{
    let mut v = to_float(bytes);
    let mut i: usize = 0;
    while i < 4 && v.num >= 1000 * v.den
        invariant
            i <= 4,
            1 <= v.den <= HIGH,
            thousandfold(float(bytes as nat), 0, 4) == thousandfold(v.val(), i as nat, 4),
            i == 0 ==> v.den == 1 && v.num <= 0x2_0000_0000_0000_0000,
            i > 0 ==> v.num <= 74_000_000_000_000_000 * v.den,
            i > 0 ==> v.num <= 74_000_000_000_000_000,
        decreases 4 - i,
    {
        let old_num = v.num;
        let old_den = v.den;
        let w = round53(v.num, v.den * 1000);
        assert(v.val().den * 1000 == (old_den * 1000) as nat);
        assert(w.num <= 74_000_000_000_000_000 * w.den) by (nonlinear_arith)
            requires
                w.num * (old_den * 1000) <= 2 * old_num * w.den,
                old_num <= 0x2_0000_0000_0000_0000 * old_den,
                old_den >= 1,
                w.den >= 1,
        {
            assert(2 * old_num * w.den <= 2 * (0x2_0000_0000_0000_0000 * old_den) * w.den);
            assert(w.num * (old_den * 1000) == (w.num * 1000) * old_den);
            assert(2 * (0x2_0000_0000_0000_0000 * old_den) * w.den
                == (0x4_0000_0000_0000_0000 * w.den) * old_den);
            assert(w.num * 1000 <= 0x4_0000_0000_0000_0000 * w.den);
        }
        v = w;
        i += 1;
    }
    if i == 0 {
        let mut s = decimal(bytes);
        s.append(" B");
        s
    } else {
        assert(10 * v.num <= v.den * 0x1000_0000_0000_0000);
        let mut s = tenths_text(&v);
        if i == 1 {
            s.append(" kB");
        } else if i == 2 {
            s.append(" MB");
        } else if i == 3 {
            s.append(" GB");
        } else {
            s.append(" TB");
        }
        s
    }
}

/// Sizes in binary units, for the command line.
pub fn human_binary(bytes: u64) -> (s: String)
    ensures
        s@ == binary_text(bytes),
{
    let v = to_float(bytes);
    let (i, unit): (u8, u128) = if v.num < 1024 {
        (0, 1)
    } else if v.num < 1_048_576 {
        (1, 1024)
    } else if v.num < 1_073_741_824 {
        (2, 1_048_576)
    } else if v.num < 1_099_511_627_776 {
        (3, 1_073_741_824)
    } else {
        (4, 1_099_511_627_776)
    };
    if i == 0 {
        let mut s = decimal(bytes);
        s.append(" B");
        s
    } else {
        let w = Fraction { num: v.num, den: unit };
        let mut s = tenths_text(&w);
        if i == 1 {
            s.append(" KiB");
        } else if i == 2 {
            s.append(" MiB");
        } else if i == 3 {
            s.append(" GiB");
        } else {
            s.append(" TiB");
        }
        s
    }
}

fn float_over(n: u64, d: u64) -> (v: Fraction)
    requires
        d > 0,
    ensures
        v.val() == rounded(float(n as nat).num, float(d as nat).num),
        1 <= v.den <= 0x40_0000_0000_0000 * 0x1_0000_0000_0000_0000,
        v.num <= v.den * 0x4_0000_0000_0000_0000 / float(d as nat).num as int || v.num <= HIGH,
        v.num <= 0x4_0000_0000_0000_0000,
{
    let a = to_float(n);
    let b = to_float(d);
    let v = round53(a.num, b.num);
    if a.num >= b.num {
        assert(v.num <= v.den * 0x4_0000_0000_0000_0000 / (b.num as int)) by (nonlinear_arith)
            requires
                v.num * b.num <= 2 * a.num * v.den,
                a.num <= 0x2_0000_0000_0000_0000,
                b.num > 0,
        {
            assert(2 * a.num * v.den <= 0x4_0000_0000_0000_0000 * v.den);
        }
    } else {
        assert(a.num < b.num * HIGH) by (nonlinear_arith)
            requires
                a.num < b.num,
        ;
    }
    v
}

/// A size in billions of bytes, with one decimal.
pub fn gigabytes(bytes: u64) -> (s: String)
    ensures
        s@ == gigabytes_text(bytes),
{
    let v = float_over(bytes, 1_000_000_000);
    assert(float(1_000_000_000).num == 1_000_000_000);
    tenths_text(&v)
}

/// A speed in millions of bytes per second, or billions from one billion on.
pub open spec fn speed_text(rate: u64) -> Seq<char> {
    if rate >= 1_000_000_000 {
        gigabytes_text(rate) + " GB/s"@
    } else {
        let v = over(float(rate as nat), 1_000_000);
        text::dec(near(v.num, v.den)) + " MB/s"@
    }
}

/// Transfer speed, given in whole bytes per second.
pub fn speed(bytes_per_sec: u64) -> (s: String)
    ensures
        s@ == speed_text(bytes_per_sec),
{
    if bytes_per_sec >= 1_000_000_000 {
        let mut s = gigabytes(bytes_per_sec);
        s.append(" GB/s");
        s
    } else {
        let v = float_over(bytes_per_sec, 1_000_000);
        assert(float(1_000_000).num == 1_000_000);
        let q = nearest(v.num, v.den);
        assert(q <= 0x1000_0000_0000_0000) by (nonlinear_arith)
            requires
                q <= v.num / v.den + 1,
                v.num <= v.den * 0x4_0000_0000_0000_0000 / 1_000_000 || v.num <= HIGH,
                v.den >= 1,
        ;
        let mut s = decimal(q as u64);
        s.append(" MB/s");
        s
    }
}

/// A duration in words, no more precise than a wobbling rate allows.
pub open spec fn eta_text(secs: u64) -> Seq<char> {
    if secs < 60 {
        "less than a minute"@
    } else if secs < 3600 {
        let m = (secs as nat + 30) / 60;
        "about "@ + text::dec(m) + (if m == 1 {
            " minute"@
        } else {
            " minutes"@
        })
    } else {
        "about "@ + text::dec(secs as nat / 3600) + " h "@ + text::dec(
            (secs as nat % 3600 + 30) / 60,
        ) + " m"@
    }
}

/// The words alone, so that callers can end the sentence their own way.
pub fn eta_words(secs: u64) -> (s: String)
    ensures
        s@ == eta_text(secs),
{
    if secs < 60 {
        String::from_str("less than a minute")
    } else if secs < 3600 {
        let m: u64 = (secs + 30) / 60;
        let mut s = String::from_str("about ");
        s.append(decimal(m).as_str());
        if m == 1 {
            s.append(" minute");
        } else {
            s.append(" minutes");
        }
        s
    } else {
        let mut s = String::from_str("about ");
        s.append(decimal(secs / 3600).as_str());
        s.append(" h ");
        s.append(decimal((secs % 3600 + 30) / 60).as_str());
        s.append(" m");
        s
    }
}

/// The seconds it takes to write `remaining` bytes at `rate` bytes per second, to the
/// nearest second, halves up.
pub open spec fn eta_secs(remaining: u64, rate: u64) -> u64 {
    let v = rounded(float(remaining as nat).num, float(rate as nat).num);
    let secs = (2 * v.num + v.den) / (2 * v.den);
    if secs > u64::MAX {
        u64::MAX
    } else {
        secs as u64
    }
}

/// Time remaining. Nothing is promised without a rate, or with nothing left.
pub fn eta(remaining: u64, rate: u64) -> (r: Option<String>)
    ensures
        r is None <==> rate == 0 || remaining == 0,
        r matches Some(s) ==> s@ == eta_text(eta_secs(remaining, rate)) + " left"@,
{
    if rate == 0 || remaining == 0 {
        return None;
    }
    let v = float_over(remaining, rate);
    let secs: u128 = (2 * v.num + v.den) / (2 * v.den);
    let secs: u64 = if secs > u64::MAX as u128 {
        u64::MAX
    } else {
        secs as u64
    };
    let mut s = eta_words(secs);
    s.append(" left");
    Some(s)
}

} // verus!
