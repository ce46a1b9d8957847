//! What a size reads as.

use crate::size;
use crate::size::Ratio;
use crate::text;
use crate::word_laws::{law_a_quotient_is_kept_in_53_bits, law_near_is_nearest};
use vstd::prelude::*;

verus! {

/// So many tenths, with one decimal.
pub open spec fn tenths(t: nat) -> Seq<char> {
    text::dec(t / 10) + seq!['.', text::digit(t % 10)]
}

/// Below a thousand bytes, or below 1024 in binary units, a size is told to the byte.
pub proof fn law_a_small_size_is_told_to_the_byte(bytes: u64)
    ensures
        bytes < 1000 ==> size::human_text(bytes) == text::dec(bytes as nat) + seq![' ', 'B'],
        bytes < 1024 ==> size::binary_text(bytes) == text::dec(bytes as nat) + seq![' ', 'B'],
{
    reveal_strlit(" B");
    assert(" B"@ =~= seq![' ', 'B']);
}

/// In binary units a size is told in the largest of them that it holds once, in tenths, to the
/// nearest tenth.
pub proof fn law_a_binary_size_is_told_to_the_tenth(bytes: u64) -> (t: nat)
    requires
        1024 <= bytes < 9_007_199_254_740_992,
    ensures
        bytes < 0x10_0000 ==> size::binary_text(bytes) == tenths(t) + seq![' ', 'K', 'i', 'B']
            && near_tenth(t, bytes as int, 0x400),
        0x10_0000 <= bytes < 0x4000_0000 ==> size::binary_text(bytes) == tenths(t) + seq![
            ' ',
            'M',
            'i',
            'B',
        ] && near_tenth(t, bytes as int, 0x10_0000),
        0x4000_0000 <= bytes < 0x100_0000_0000 ==> size::binary_text(bytes) == tenths(t) + seq![
            ' ',
            'G',
            'i',
            'B',
        ] && near_tenth(t, bytes as int, 0x4000_0000),
        0x100_0000_0000 <= bytes ==> size::binary_text(bytes) == tenths(t) + seq![
            ' ',
            'T',
            'i',
            'B',
        ] && near_tenth(t, bytes as int, 0x100_0000_0000),
{
    reveal_strlit(" KiB");
    reveal_strlit(" MiB");
    reveal_strlit(" GiB");
    reveal_strlit(" TiB");
    assert(" KiB"@ =~= seq![' ', 'K', 'i', 'B']);
    assert(" MiB"@ =~= seq![' ', 'M', 'i', 'B']);
    assert(" GiB"@ =~= seq![' ', 'G', 'i', 'B']);
    assert(" TiB"@ =~= seq![' ', 'T', 'i', 'B']);
    let k: nat = if bytes < 0x10_0000 {
        0x400
    } else if bytes < 0x4000_0000 {
        0x10_0000
    } else if bytes < 0x100_0000_0000 {
        0x4000_0000
    } else {
        0x100_0000_0000
    };
    let v = Ratio { num: bytes as nat, den: k };
    let t = size::near(10 * bytes as nat, k);
    law_near_is_nearest(10 * bytes as nat, k);
    assert(size::one_decimal(v) =~= tenths(t));
    t
}

/// `t` tenths of the unit are the nearest to so many bytes.
pub open spec fn near_tenth(t: nat, bytes: int, unit: int) -> bool {
    2 * (t * unit - 10 * bytes) <= unit && 2 * (10 * bytes - t * unit) <= unit
}

/// What `rounded` keeps of a quotient is not below a whole number that the quotient reaches.
proof fn lemma_keeps_whole(n: nat, d: nat, k: nat)
    requires
        n > 0,
        d > 0,
        n < d * 9_007_199_254_740_992,
        n >= k * d,
    ensures
        size::rounded(n, d).num >= k * size::rounded(n, d).den,
{
    let s = size::doublings(n, d * size::LOW as nat);
    let p = size::pow2(s);
    let q = n * p;
    assert(q >= (k * p) * d) by (nonlinear_arith)
        requires
            q == n * p,
            n >= k * d,
            p >= 0,
    ;
    assert(q / d >= k * p) by (nonlinear_arith)
        requires
            q >= (k * p) * d,
            d > 0,
    ;
    assert(size::rounded(n, d).num == size::near(q, d));
    assert(size::rounded(n, d).den == p);
}

/// The fraction `v` is `b` over `unit` to within `err` bytes in a thousand thousand.
spec fn close(v: Ratio, b: int, unit: int, err: int) -> bool {
    &&& v.den > 0
    &&& 1_000_000 * (v.num * unit - b * v.den) <= err * v.den
    &&& 1_000_000 * (b * v.den - v.num * unit) <= err * v.den
}

/// One more division by a thousand.
proof fn lemma_step(v: Ratio, b: int, unit: int, err: int, more: int)
    requires
        close(v, b, unit, err),
        v.num > 0,
        v.num < v.den * 1000 * 9_007_199_254_740_992,
        unit > 0,
        0 <= err,
        size::over(v, 1000).den * more >= 500_000_000 * unit,
    ensures
        close(size::over(v, 1000), b, 1000 * unit, err + more),
{
    let w = size::over(v, 1000);
    let d = v.den * 1000;
    law_a_quotient_is_kept_in_53_bits(v.num, d);
    let x = w.num * d - v.num * w.den;
    assert(2 * x <= d && 2 * -x <= d);
    let y = v.num * unit - b * v.den;
    let z = w.num * (1000 * unit) - b * w.den;
    assert(z * v.den == x * unit + y * w.den) by (nonlinear_arith)
        requires
            d == v.den * 1000,
            x == w.num * d - v.num * w.den,
            y == v.num * unit - b * v.den,
            z == w.num * (1000 * unit) - b * w.den,
    ;
    lemma_bound(z, x, y, v.den as int, w.den as int, unit, err, more);
    lemma_bound(-z, -x, -y, v.den as int, w.den as int, unit, err, more);
}

proof fn lemma_bound(
    z: int,
    x: int,
    y: int,
    old_den: int,
    new_den: int,
    unit: int,
    err: int,
    more: int,
)
    requires
        old_den > 0,
        new_den > 0,
        unit > 0,
        z * old_den == x * unit + y * new_den || (-z) * old_den == (-x) * unit + (-y) * new_den,
        2 * x <= 1000 * old_den,
        1_000_000 * y <= err * old_den,
        new_den * more >= 500_000_000 * unit,
    ensures
        1_000_000 * z <= (err + more) * new_den,
{
    assert((-z) * old_den == -(z * old_den) && (-x) * unit == -(x * unit) && (-y) * new_den == -(y
        * new_den)) by (nonlinear_arith);
    assert(x * unit <= 500 * old_den * unit) by (nonlinear_arith)
        requires
            x <= 500 * old_den,
            unit > 0,
    ;
    assert(1_000_000 * y * new_den <= err * old_den * new_den) by (nonlinear_arith)
        requires
            1_000_000 * y <= err * old_den,
            new_den > 0,
    ;
    assert(500_000_000 * old_den * unit <= old_den * (new_den * more)) by (nonlinear_arith)
        requires
            500_000_000 * unit <= new_den * more,
            old_den > 0,
    ;
    assert(1_000_000 * (z * old_den) <= old_den * (new_den * more) + err * old_den * new_den)
        by (nonlinear_arith)
        requires
            z * old_den == x * unit + y * new_den,
            x * unit <= 500 * old_den * unit,
            1_000_000 * y * new_den <= err * old_den * new_den,
            500_000_000 * old_den * unit <= old_den * (new_den * more),
    ;
    assert(1_000_000 * z <= (err + more) * new_den) by (nonlinear_arith)
        requires
            1_000_000 * (z * old_den) <= old_den * (new_den * more) + err * old_den * new_den,
            old_den > 0,
    ;
}

/// The denominators are large enough for that.
proof fn lemma_divided(v: Ratio, b: int, unit: int, err: int, more: int)
    requires
        close(v, b, unit, err),
        v.num > 0,
        0 < b < 9_007_199_254_740_992,
        unit > 0,
        0 <= err <= 4_000_000,
        0 <= more,
        more * 4_503_599_627_370_495 >= 500_000 * (b + 4),
    ensures
        close(size::over(v, 1000), b, 1000 * unit, err + more),
        size::over(v, 1000).num > 0,
        v.num < v.den * 1000 * 9_007_199_254_740_992,
{
    let w = size::over(v, 1000);
    let d = v.den * 1000;
    assert(v.num * unit <= (b + 4) * v.den) by (nonlinear_arith)
        requires
            1_000_000 * (v.num * unit - b * v.den) <= err * v.den,
            err <= 4_000_000,
            v.den > 0,
    ;
    assert(v.num <= (b + 4) * v.den) by (nonlinear_arith)
        requires
            v.num * unit <= (b + 4) * v.den,
            unit > 0,
            v.num > 0,
    ;
    assert(v.num < d * 9_007_199_254_740_992) by (nonlinear_arith)
        requires
            v.num <= (b + 4) * v.den,
            b < 9_007_199_254_740_992,
            v.den > 0,
            d == v.den * 1000,
    ;
    law_a_quotient_is_kept_in_53_bits(v.num, d);
    let low: int = 4_503_599_627_370_495;
    assert(low * d <= v.num * w.den) by (nonlinear_arith)
        requires
            w.num >= low + 1,
            2 * (w.num * d - v.num * w.den) <= d,
            d > 0,
    ;
    assert(low * 1000 * unit <= (b + 4) * w.den) by (nonlinear_arith)
        requires
            low * d <= v.num * w.den,
            d == v.den * 1000,
            v.num * unit <= (b + 4) * v.den,
            v.den > 0,
            w.den > 0,
            unit > 0,
    {
        assert(low * d * unit <= v.num * w.den * unit);
        assert(v.num * w.den * unit == (v.num * unit) * w.den);
        assert((v.num * unit) * w.den <= (b + 4) * v.den * w.den);
        assert(low * d * unit == (low * 1000 * unit) * v.den);
        assert((b + 4) * v.den * w.den == ((b + 4) * w.den) * v.den);
    }
    assert(w.den * more >= 500_000_000 * unit) by (nonlinear_arith)
        requires
            low * 1000 * unit <= (b + 4) * w.den,
            more * low >= 500_000 * (b + 4),
            low > 0,
            w.den > 0,
            unit > 0,
            more >= 0,
    {
        assert((w.den * more) * low == w.den * (more * low));
        assert(w.den * (more * low) >= w.den * (500_000 * (b + 4)));
        assert(w.den * (500_000 * (b + 4)) == 500_000 * ((b + 4) * w.den));
        assert(500_000 * ((b + 4) * w.den) >= 500_000 * (low * 1000 * unit));
        assert(500_000 * (low * 1000 * unit) == (500_000_000 * unit) * low);
    }
    lemma_step(v, b, unit, err, more);
}

/// A fraction that is close to less than a thousand units is below a thousand.
proof fn lemma_below(v: Ratio, b: int, unit: int, err: int)
    requires
        close(v, b, unit, err),
        err < 1_000_000,
        b < 1000 * unit,
        unit > 0,
    ensures
        v.num < 1000 * v.den,
{
    assert(v.num < 1000 * v.den) by (nonlinear_arith)
        requires
            1_000_000 * (v.num * unit - b * v.den) <= err * v.den,
            err < 1_000_000,
            b + 1 <= 1000 * unit,
            unit > 0,
            v.den > 0,
    {
        assert(v.num * unit < (b + 1) * v.den);
        assert((b + 1) * v.den <= (1000 * unit) * v.den);
        assert((1000 * unit) * v.den == (1000 * v.den) * unit);
    }
}

/// The tenths of a close fraction.
proof fn lemma_tenths(v: Ratio, b: int, unit: int, err: int)
    requires
        close(v, b, unit, err),
        0 <= err <= 4_400_000,
        unit > 0,
    ensures
        ({
            let t = size::near(10 * v.num, v.den);
            &&& 2 * (t * unit - 10 * b) <= unit + 100
            &&& 2 * (10 * b - t * unit) <= unit + 100
            &&& err < 50_000 ==> near_tenth(t, b, unit)
        }),
{
    let t = size::near(10 * v.num, v.den) as int;
    let num = v.num as int;
    let den = v.den as int;
    law_near_is_nearest(10 * v.num, v.den);
    let x = t * den - 10 * num;
    let y = num * unit - b * den;
    let z = t * unit - 10 * b;
    assert(z * den == x * unit + 10 * y) by (nonlinear_arith)
        requires
            x == t * den - 10 * num,
            y == num * unit - b * den,
            z == t * unit - 10 * b,
    ;
    assert(100_000 * (2 * z - unit) <= 2 * err && 100_000 * (-2 * z - unit) <= 2 * err)
        by (nonlinear_arith)
        requires
            z * den == x * unit + 10 * y,
            2 * x <= den,
            -2 * x <= den,
            1_000_000 * y <= err * den,
            -1_000_000 * y <= err * den,
            den > 0,
            unit > 0,
    {
        assert(2 * x * unit <= den * unit);
        assert(-2 * x * unit <= den * unit);
        assert(100_000 * (2 * (z * den)) <= 100_000 * (den * unit) + 2 * (err * den));
        assert(100_000 * (-2 * (z * den)) <= 100_000 * (den * unit) + 2 * (err * den));
        assert(100_000 * (2 * (z * den)) - 100_000 * (den * unit) == (100_000 * (2 * z - unit))
            * den);
        assert(100_000 * (-2 * (z * den)) - 100_000 * (den * unit) == (100_000 * (-2 * z - unit))
            * den);
    }
}

/// A size is told in the largest unit of a thousand, a million, a billion or a trillion bytes
/// that it holds once, in tenths, to the nearest tenth. Trillions are told to the nearest tenth
/// but for fifty bytes.
#[verifier::spinoff_prover]
#[verifier::rlimit(60)]
pub proof fn law_a_size_is_told_to_the_tenth(bytes: u64) -> (t: nat)
    requires
        1000 <= bytes < 9_007_199_254_740_992,
    ensures
        bytes < 1_000_000 ==> size::human_text(bytes) == tenths(t) + seq![' ', 'k', 'B']
            && near_tenth(t, bytes as int, 1000),
        1_000_000 <= bytes < 1_000_000_000 ==> size::human_text(bytes) == tenths(t) + seq![
            ' ',
            'M',
            'B',
        ] && near_tenth(t, bytes as int, 1_000_000),
        1_000_000_000 <= bytes < 1_000_000_000_000 ==> size::human_text(bytes) == tenths(t) + seq![
            ' ',
            'G',
            'B',
        ] && near_tenth(t, bytes as int, 1_000_000_000),
        1_000_000_000_000 <= bytes ==> size::human_text(bytes) == tenths(t) + seq![' ', 'T', 'B']
            && -100 <= 2 * (t * 1_000_000_000_000 - 10 * bytes) + 1_000_000_000_000 && 2 * (t
            * 1_000_000_000_000 - 10 * bytes) - 1_000_000_000_000 <= 100,
{
    let b = bytes as int;
    let v0 = size::float(bytes as nat);
    let v1 = size::over(v0, 1000);
    let v2 = size::over(v1, 1000);
    let v3 = size::over(v2, 1000);
    let v4 = size::over(v3, 1000);
    let more: int = if b < 1_000_000_000_000 {
        200
    } else {
        1_100_000
    };
    lemma_divided(v0, b, 1, 0, more);
    lemma_divided(v1, b, 1000, more, more);
    lemma_divided(v2, b, 1_000_000, 2 * more, more);
    lemma_divided(v3, b, 1_000_000_000, 3 * more, more);
    lemma_decades(bytes);
    reveal_strlit(" kB");
    reveal_strlit(" MB");
    reveal_strlit(" GB");
    reveal_strlit(" TB");
    assert(" kB"@ =~= seq![' ', 'k', 'B']);
    assert(" MB"@ =~= seq![' ', 'M', 'B']);
    assert(" GB"@ =~= seq![' ', 'G', 'B']);
    assert(" TB"@ =~= seq![' ', 'T', 'B']);
    let (v, unit, err, i) = if b < 1_000_000 {
        lemma_below(v1, b, 1000, more);
        (v1, 1000int, more, 1nat)
    } else if b < 1_000_000_000 {
        lemma_below(v2, b, 1_000_000, 2 * more);
        (v2, 1_000_000int, 2 * more, 2nat)
    } else if b < 1_000_000_000_000 {
        lemma_below(v3, b, 1_000_000_000, 3 * more);
        (v3, 1_000_000_000int, 3 * more, 3nat)
    } else {
        (v4, 1_000_000_000_000int, 4 * more, 4nat)
    };
    assert(size::thousandfold(v0, 0, 4) == (v, i)) by {
        reveal_with_fuel(size::thousandfold, 5);
    }
    lemma_tenths(v, b, unit, err);
    let t = size::near(10 * v.num, v.den);
    assert(size::one_decimal(v) =~= tenths(t));
    t
}

/// A size that reaches a unit is divided at least as often as that.
proof fn lemma_decades(bytes: u64)
    requires
        1000 <= bytes < 9_007_199_254_740_992,
    ensures
        ({
            let v0 = size::float(bytes as nat);
            let v1 = size::over(v0, 1000);
            let v2 = size::over(v1, 1000);
            let v3 = size::over(v2, 1000);
            &&& bytes >= 1_000_000 ==> v1.num >= 1000 * v1.den
            &&& bytes >= 1_000_000_000 ==> v2.num >= 1000 * v2.den
            &&& bytes >= 1_000_000_000_000 ==> v3.num >= 1000 * v3.den
        }),
{
    let b = bytes as int;
    let v0 = size::float(bytes as nat);
    let v1 = size::over(v0, 1000);
    let v2 = size::over(v1, 1000);
    lemma_divided(v0, b, 1, 0, 1_100_000);
    lemma_divided(v1, b, 1000, 1_100_000, 1_100_000);
    lemma_divided(v2, b, 1_000_000, 2_200_000, 1_100_000);
    if b >= 1_000_000_000_000 {
        lemma_keeps_whole(v0.num, v0.den * 1000, 1_000_000_000);
        lemma_keeps_whole(v1.num, v1.den * 1000, 1_000_000);
        lemma_keeps_whole(v2.num, v2.den * 1000, 1000);
    }
    if b >= 1_000_000_000 {
        lemma_keeps_whole(v0.num, v0.den * 1000, 1_000_000);
        lemma_keeps_whole(v1.num, v1.den * 1000, 1000);
    }
    if b >= 1_000_000 {
        lemma_keeps_whole(v0.num, v0.den * 1000, 1000);
    }
}

/// The denominator of a quotient that is kept is large.
proof fn lemma_wide(b: nat, d: nat)
    requires
        0 < b < 9_007_199_254_740_992,
        d > 0,
    ensures
        size::rounded(b, d).den > 0,
        4_503_599_627_370_495 * d <= b * size::rounded(b, d).den,
        2 * (size::rounded(b, d).num * d - b * size::rounded(b, d).den) <= d,
        2 * (b * size::rounded(b, d).den - size::rounded(b, d).num * d) <= d,
{
    assert(b < d * 9_007_199_254_740_992) by (nonlinear_arith)
        requires
            b < 9_007_199_254_740_992,
            d > 0,
    ;
    law_a_quotient_is_kept_in_53_bits(b, d);
    let w = size::rounded(b, d);
    assert(4_503_599_627_370_495 * d <= b * w.den) by (nonlinear_arith)
        requires
            w.num >= 4_503_599_627_370_496,
            2 * (w.num * d - b * w.den) <= d,
            d > 0,
    ;
}

/// A speed below a billion bytes a second is told in millions, to the nearest; from there on in
/// billions, to the nearest tenth but for fifty bytes.
pub proof fn law_how_a_speed_is_told(rate: u64) -> (t: nat)
    requires
        0 < rate < 9_007_199_254_740_992,
    ensures
        rate < 1_000_000_000 ==> size::speed_text(rate) == text::dec(t) + seq![
            ' ',
            'M',
            'B',
            '/',
            's',
        ] && 2 * (t * 1_000_000 - rate) <= 1_000_000 && 2 * (rate - t * 1_000_000) <= 1_000_000,
        rate >= 1_000_000_000 ==> size::speed_text(rate) == tenths(t) + seq![' ', 'G', 'B', '/', 's']
            && 2 * (t * 1_000_000_000 - 10 * rate) <= 1_000_000_100 && 2 * (10 * rate - t
            * 1_000_000_000) <= 1_000_000_100,
{
    reveal_strlit(" MB/s");
    reveal_strlit(" GB/s");
    assert(" MB/s"@ =~= seq![' ', 'M', 'B', '/', 's']);
    assert(" GB/s"@ =~= seq![' ', 'G', 'B', '/', 's']);
    let b = rate as nat;
    if rate < 1_000_000_000 {
        let v = size::rounded(b, 1_000_000);
        lemma_wide(b, 1_000_000);
        let t = size::near(v.num, v.den);
        law_near_is_nearest(v.num, v.den);
        let num = v.num as int;
        let den = v.den as int;
        let r = rate as int;
        let tt = t as int;
        assert(den > 1_000_000) by (nonlinear_arith)
            requires
                4_503_599_627_370_495 * 1_000_000 <= r * den,
                0 < r < 1_000_000_000,
                den > 0,
        ;
        let z = tt * 1_000_000 - r;
        assert(z * den == (tt * den - num) * 1_000_000 + (num * 1_000_000 - r * den))
            by (nonlinear_arith)
            requires
                z == tt * 1_000_000 - r,
        ;
        assert(2 * z <= 1_000_000 && -2 * z <= 1_000_000) by (nonlinear_arith)
            requires
                z * den == (tt * den - num) * 1_000_000 + (num * 1_000_000 - r * den),
                2 * (tt * den - num) <= den,
                2 * (num - tt * den) <= den,
                2 * (num * 1_000_000 - r * den) <= 1_000_000,
                2 * (r * den - num * 1_000_000) <= 1_000_000,
                den > 1_000_000,
        ;
        t
    } else {
        let v = size::rounded(b, 1_000_000_000);
        lemma_wide(b, 1_000_000_000);
        let den = v.den as int;
        let r = rate as int;
        assert(1_100_000 * den >= 500_000_000_000_000) by (nonlinear_arith)
            requires
                4_503_599_627_370_495 * 1_000_000_000 <= r * den,
                0 < r < 9_007_199_254_740_992,
                den > 0,
        ;
        lemma_tenths(v, r, 1_000_000_000, 1_100_000);
        let t = size::near(10 * v.num, v.den);
        assert(size::one_decimal(v) =~= tenths(t));
        t
    }
}

} // verus!
