//! Timestamps, each counted in a time base of its own.

use vstd::prelude::*;

verus! {

/// A fraction of two integers, as the media library hands it over: a time base
/// of `1/25` says that one unit of a timestamp is a twenty-fifth of a second.
#[derive(Debug, Clone, Copy, PartialEq, Eq, Structural)]
pub struct Rational {
    pub num: i32,
    pub den: i32,
}

/// A point in time: `pts` units of `time_base`.
#[derive(Debug, Clone, Copy, PartialEq, Eq, Structural)]
pub struct Timestamp {
    pub pts: i64,
    pub time_base: Rational,
}

impl Rational {
    /// A time base whose unit is a positive span of time.
    pub open spec fn positive(self) -> bool {
        self.num > 0 && self.den > 0
    }
}

impl Timestamp {
    /// The time brought to the denominator that it shares with a timestamp
    /// counted in `other`.
    pub open spec fn scaled(self, other: Rational) -> int {
        self.pts * (self.time_base.num * other.den)
    }

    /// How many units of the common denominator the first of two timestamps
    /// is ahead of the second.
    pub open spec fn lead(self, other: Timestamp) -> int {
        self.scaled(other.time_base) - other.scaled(self.time_base)
    }
}

/// The sign of an integer: -1, 0 or 1.
pub open spec fn sign(x: int) -> int {
    if x < 0 {
        -1
    } else if x == 0 {
        0
    } else {
        1
    }
}

/// Compares two timestamps, each in its own time base: -1 if the first comes
/// before the second, 1 if it comes after, 0 if they are the same point in time.
pub fn compare_ts(a: Timestamp, b: Timestamp) -> (order: i32)
    ensures
        order == sign(a.lead(b)),
        order == -1 <==> a.pts * (a.time_base.num * b.time_base.den) < b.pts * (b.time_base.num
            * a.time_base.den),
        order == 0 <==> a.pts * (a.time_base.num * b.time_base.den) == b.pts * (b.time_base.num
            * a.time_base.den),
        order == 1 <==> a.pts * (a.time_base.num * b.time_base.den) > b.pts * (b.time_base.num
            * a.time_base.den),
{
    proof {
        lemma_product_bounds(a.time_base.num, b.time_base.den, a.pts);
        lemma_product_bounds(b.time_base.num, a.time_base.den, b.pts);
    }
    let a_unit: i128 = (a.time_base.num as i128) * (b.time_base.den as i128);
    let b_unit: i128 = (b.time_base.num as i128) * (a.time_base.den as i128);
    let a_time: i128 = (a.pts as i128) * a_unit;
    let b_time: i128 = (b.pts as i128) * b_unit;
    if a_time < b_time {
        -1
    } else if a_time == b_time {
        0
    } else {
        1
    }
}

/// The integer nearest to `n / d`, where `d` is positive; halfway between two
/// integers, the one farther from zero.
pub open spec fn nearest(n: int, d: int) -> int {
    if n >= 0 {
        (n + d / 2) / d
    } else {
        -((d / 2 - n) / d)
    }
}

/// No integer is nearer to `n / d`: the distance is at most a half, and at a half
/// the integer is the one farther from zero.
pub proof fn lemma_nearest(n: int, d: int)
    requires
        d > 0,
    ensures
        -d <= 2 * (nearest(n, d) * d - n) <= d,
        n >= 0 ==> 2 * (nearest(n, d) * d - n) > -d,
        n <= 0 ==> 2 * (nearest(n, d) * d - n) < d,
{
    let m = if n >= 0 {
        n
    } else {
        -n
    };
    let x = m + d / 2;
    let q = x / d;
    vstd::arithmetic::div_mod::lemma_fundamental_div_mod(x, d);
    vstd::arithmetic::div_mod::lemma_mod_bound(x, d);
    assert(d * q == q * d && (-q) * d == -(q * d)) by (nonlinear_arith);
    if n == 0 {
        vstd::arithmetic::div_mod::lemma_small_mod((d / 2) as nat, d as nat);
    }
}

/// When the sample that follows `samples` samples is played, in units of
/// `time_base`, rounded to the nearest unit.
pub open spec fn played_at(samples: int, sample_rate: int, time_base: Rational) -> int {
    nearest(samples * time_base.den, time_base.num * sample_rate)
}

/// When the sample that follows `samples` samples is played, in units of
/// `time_base`, rounded to the nearest unit.
pub fn sample_time(samples: i32, sample_rate: i32, time_base: Rational) -> (pts: i64)
    requires
        sample_rate > 0,
        time_base.positive(),
    ensures
        pts == played_at(samples as int, sample_rate as int, time_base),
        ({
            let unit = time_base.num * sample_rate;
            let error = pts * unit - samples * time_base.den;
            &&& -unit <= 2 * error <= unit
            &&& samples >= 0 ==> 2 * error > -unit
            &&& samples <= 0 ==> 2 * error < unit
        }),
{
    proof {
        lemma_sample_bounds(samples, sample_rate, time_base);
        lemma_played_at(samples as int, sample_rate as int, time_base);
    }
    let n: i64 = (samples as i64) * (time_base.den as i64);
    let d: i64 = (time_base.num as i64) * (sample_rate as i64);
    if n >= 0 {
        (n + d / 2) / d
    } else {
        -((d / 2 - n) / d)
    }
}

/// The numbers of a rescaled sample count stay within 64 bits.
proof fn lemma_sample_bounds(samples: i32, sample_rate: i32, time_base: Rational)
    requires
        sample_rate > 0,
        time_base.positive(),
    ensures
        -0x4000_0000_0000_0000 <= samples * time_base.den <= 0x4000_0000_0000_0000,
        0 < time_base.num * sample_rate <= 0x4000_0000_0000_0000,
{
    lemma_product_bounds(samples, time_base.den, 0);
    lemma_product_bounds(time_base.num, sample_rate, 0);
    assert(0 < time_base.num * sample_rate) by (nonlinear_arith)
        requires
            time_base.num > 0,
            sample_rate > 0,
    ;
}

/// In a time base of one unit per sample, time is the count of samples.
pub proof fn lemma_sample_clock(samples: int, sample_rate: int)
    requires
        0 < sample_rate <= i32::MAX,
    ensures
        played_at(samples, sample_rate, Rational { num: 1, den: sample_rate as i32 }) == samples,
{
    let half = sample_rate / 2;
    if samples >= 0 {
        vstd::arithmetic::div_mod::lemma_fundamental_div_mod_converse(
            samples * sample_rate + half,
            sample_rate,
            samples,
            half,
        );
    } else {
        assert(half - samples * sample_rate == -samples * sample_rate + half)
            by (nonlinear_arith);
        vstd::arithmetic::div_mod::lemma_fundamental_div_mod_converse(
            -samples * sample_rate + half,
            sample_rate,
            -samples,
            half,
        );
        assert((samples * sample_rate) < 0) by (nonlinear_arith)
            requires
                samples < 0,
                sample_rate > 0,
        ;
    }
}

/// A timestamp brought to a common denominator fits into 128 bits.
proof fn lemma_product_bounds(num: i32, den: i32, pts: i64)
    ensures
        -0x4000_0000_0000_0000 <= num * den <= 0x4000_0000_0000_0000,
        i128::MIN <= pts * (num * den) <= i128::MAX,
{
    let unit = num * den;
    assert(-0x4000_0000_0000_0000 <= unit <= 0x4000_0000_0000_0000) by (nonlinear_arith)
        requires
            unit == num * den,
            -0x8000_0000 <= num <= 0x7fff_ffff,
            -0x8000_0000 <= den <= 0x7fff_ffff,
    ;
    assert(i128::MIN <= pts * unit <= i128::MAX) by (nonlinear_arith)
        requires
            -0x4000_0000_0000_0000 <= unit <= 0x4000_0000_0000_0000,
            -0x8000_0000_0000_0000 <= pts <= 0x7fff_ffff_ffff_ffff,
    ;
}

/// A time base is positive if both of its parts are.
pub proof fn lemma_positive(time_base: Rational)
    ensures
        time_base.positive() <==> 0 < time_base.num && 0 < time_base.den,
{
}

/// The rounded time of a sample is off by half a unit at most: counted in unit
/// fractions of `num * sample_rate`, the time and the exact product differ by no
/// more than that, and halfway the time is the one farther from zero.
pub proof fn lemma_played_at(samples: int, sample_rate: int, time_base: Rational)
    requires
        sample_rate > 0,
        time_base.positive(),
    ensures
        ({
            let unit = time_base.num * sample_rate;
            let error = played_at(samples, sample_rate, time_base) * unit - samples
                * time_base.den;
            &&& unit > 0
            &&& -unit <= 2 * error <= unit
            &&& samples >= 0 ==> 2 * error > -unit
            &&& samples <= 0 ==> 2 * error < unit
        }),
{
    let unit = time_base.num * sample_rate;
    assert(unit > 0) by (nonlinear_arith)
        requires
            unit == time_base.num * sample_rate,
            time_base.num > 0,
            sample_rate > 0,
    ;
    lemma_nearest(samples * time_base.den, unit);
    assert(samples >= 0 ==> samples * time_base.den >= 0) by (nonlinear_arith)
        requires
            time_base.den > 0,
    ;
    assert(samples <= 0 ==> samples * time_base.den <= 0) by (nonlinear_arith)
        requires
            time_base.den > 0,
    ;
}

/// Two timestamps compare as the fractions of a second that they stand for:
/// `pts * num / den`, brought to the common denominator.
pub proof fn lemma_compare_by_time(a: Timestamp, b: Timestamp)
    ensures
        ({
            let a_time = (a.pts * a.time_base.num) * b.time_base.den;
            let b_time = (b.pts * b.time_base.num) * a.time_base.den;
            &&& sign(a.lead(b)) == -1 <==> a_time < b_time
            &&& sign(a.lead(b)) == 0 <==> a_time == b_time
            &&& sign(a.lead(b)) == 1 <==> a_time > b_time
            &&& a.lead(b) == a_time - b_time
        }),
{
    assert((a.pts * a.time_base.num) * b.time_base.den == a.pts * (a.time_base.num
        * b.time_base.den)) by (nonlinear_arith);
    assert((b.pts * b.time_base.num) * a.time_base.den == b.pts * (b.time_base.num
        * a.time_base.den)) by (nonlinear_arith);
}

/// A timestamp does not change its place in time when it is counted in a finer
/// time base: `k` times the count, in units of a `k`-th.
pub proof fn lemma_compare_finer_base(a: Timestamp, finer: Timestamp, b: Timestamp, k: int)
    requires
        k > 0,
        finer.pts == a.pts * k,
        finer.time_base.num == a.time_base.num,
        finer.time_base.den == a.time_base.den * k,
    ensures
        sign(a.lead(finer)) == 0,
        sign(finer.lead(b)) == sign(a.lead(b)),
{
    let (p, n, d) = (a.pts as int, a.time_base.num as int, a.time_base.den as int);
    let (q, m, e) = (b.pts as int, b.time_base.num as int, b.time_base.den as int);
    assert(p * (n * (d * k)) == (p * k) * (n * d)) by (nonlinear_arith);
    assert((p * k) * (n * e) == k * (p * (n * e))) by (nonlinear_arith);
    assert(q * (m * (d * k)) == k * (q * (m * d))) by (nonlinear_arith);
    let lead = p * (n * e) - q * (m * d);
    assert(k * (p * (n * e)) - k * (q * (m * d)) == k * lead) by (nonlinear_arith)
        requires
            lead == p * (n * e) - q * (m * d),
    ;
    assert((k * lead < 0 <==> lead < 0) && (k * lead == 0 <==> lead == 0)) by (nonlinear_arith)
        requires
            k > 0,
    ;
}

/// A timestamp does not change its place in time when it is counted in a coarser
/// time base, of units `k` times as long, if the count divides.
pub proof fn lemma_compare_coarser_base(a: Timestamp, coarser: Timestamp, b: Timestamp, k: int)
    requires
        coarser.pts * k == a.pts,
        coarser.time_base.num == a.time_base.num * k,
        coarser.time_base.den == a.time_base.den,
    ensures
        sign(a.lead(coarser)) == 0,
        sign(coarser.lead(b)) == sign(a.lead(b)),
{
    let (p, n, d) = (coarser.pts as int, a.time_base.num as int, a.time_base.den as int);
    let e = b.time_base.den as int;
    assert((p * k) * (n * d) == p * ((n * k) * d)) by (nonlinear_arith);
    assert((p * k) * (n * e) == p * ((n * k) * e)) by (nonlinear_arith);
}

/// Comparing two timestamps the other way round turns the answer round.
pub proof fn lemma_compare_antisymmetric(a: Timestamp, b: Timestamp)
    ensures
        sign(a.lead(b)) == -sign(b.lead(a)),
{
}

/// Timestamps counted in one positive time base compare as their counts do.
pub proof fn lemma_compare_same_base(a: Timestamp, b: Timestamp)
    requires
        a.time_base == b.time_base,
        a.time_base.positive(),
    ensures
        sign(a.lead(b)) == sign(a.pts - b.pts),
{
    let unit = a.time_base.num * a.time_base.den;
    assert(unit > 0) by (nonlinear_arith)
        requires
            unit == a.time_base.num * a.time_base.den,
            a.time_base.num > 0,
            a.time_base.den > 0,
    ;
    assert(a.lead(b) == (a.pts - b.pts) * unit) by (nonlinear_arith)
        requires
            a.lead(b) == a.pts * unit - b.pts * unit,
    ;
    assert(sign((a.pts - b.pts) * unit) == sign(a.pts - b.pts)) by (nonlinear_arith)
        requires
            unit > 0,
    ;
}

/// "Not later than" carries over from one timestamp to the next and to a third,
/// whatever positive time bases the three are counted in.
pub proof fn lemma_compare_transitive(a: Timestamp, b: Timestamp, c: Timestamp)
    requires
        a.time_base.positive(),
        b.time_base.positive(),
        c.time_base.positive(),
        sign(a.lead(b)) <= 0,
        sign(b.lead(c)) <= 0,
    ensures
        sign(a.lead(c)) <= 0,
{
    let (pa, na, da) = (a.pts as int, a.time_base.num as int, a.time_base.den as int);
    let (pb, nb, db) = (b.pts as int, b.time_base.num as int, b.time_base.den as int);
    let (pc, nc, dc) = (c.pts as int, c.time_base.num as int, c.time_base.den as int);
    assert((pa * (na * dc)) * db <= (pb * (nb * da)) * dc) by (nonlinear_arith)
        requires
            pa * (na * db) <= pb * (nb * da),
            dc > 0,
    ;
    assert((pb * (nb * da)) * dc <= (pc * (nc * da)) * db) by (nonlinear_arith)
        requires
            pb * (nb * dc) <= pc * (nc * db),
            da > 0,
    ;
    assert(pa * (na * dc) <= pc * (nc * da)) by (nonlinear_arith)
        requires
            (pa * (na * dc)) * db <= (pc * (nc * da)) * db,
            db > 0,
    ;
}

} // verus!
