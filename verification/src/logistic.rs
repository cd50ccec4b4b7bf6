//! The logistic domain: 12-bit probabilities and their stretched form.

use vstd::prelude::*;

verus! {

/// The logistic curve, sampled every 128 units from -2048 to 2048.
pub const SQUASH_T: [i32; 33] = [
    1, 2, 3, 6, 10, 16, 27, 45, 73, 120, 194, 310, 488, 747, 1101, 1546, 2047, 2549, 2994, 3348,
    3607, 3785, 3901, 3975, 4024, 4050, 4068, 4079, 4085, 4089, 4092, 4093, 4094,
];

/// `v`, or the end of `lo..=hi` that it lies beyond.
pub open spec fn clamped(v: int, lo: int, hi: int) -> int {
    if v < lo {
        lo
    } else if v > hi {
        hi
    } else {
        v
    }
}

/// The 12-bit probability of a logistic value: the sampled curve,
/// interpolated and rounded to nearest.
pub open spec fn squashed(d: int) -> int {
    let e = clamped(d, -2047, 2047) + 2048;
    let i = e / 128;
    let w = e % 128;
    (SQUASH_T@[i] * (128 - w) + SQUASH_T@[i + 1] * w + 64) / 128
}

/// The first logistic value from `x` on whose probability reaches `p`, or
/// 2047 where none does.
pub open spec fn first_reaching(p: int, x: int) -> int
    decreases 2047 - x,
{
    if x >= 2047 {
        2047
    } else if squashed(x) >= p {
        x
    } else {
        first_reaching(p, x + 1)
    }
}

/// The logistic value of a 12-bit probability: the least one in
/// `-2047..=2047` whose probability reaches it.
pub open spec fn stretched(p: int) -> int {
    first_reaching(clamped(p, 0, 4095), -2047)
}

/// The sampled curve rises from 1 to 4094.
proof fn lemma_curve(i: int)
    requires
        0 <= i < 32,
    ensures
        1 <= SQUASH_T@[i] <= SQUASH_T@[i + 1] <= 4094,
{
    let t = SQUASH_T@;
    assert(t[0] == 1 && t[1] == 2 && t[2] == 3 && t[3] == 6 && t[4] == 10 && t[5] == 16 && t[6]
        == 27 && t[7] == 45 && t[8] == 73 && t[9] == 120 && t[10] == 194 && t[11] == 310 && t[12]
        == 488 && t[13] == 747 && t[14] == 1101 && t[15] == 1546 && t[16] == 2047);
    assert(t[17] == 2549 && t[18] == 2994 && t[19] == 3348 && t[20] == 3607 && t[21] == 3785
        && t[22] == 3901 && t[23] == 3975 && t[24] == 4024 && t[25] == 4050 && t[26] == 4068
        && t[27] == 4079 && t[28] == 4085 && t[29] == 4089 && t[30] == 4092 && t[31] == 4093
        && t[32] == 4094);
}

/// An interpolated value lies between its two samples.
proof fn lemma_between(a: int, b: int, w: int)
    requires
        a <= b,
        0 <= w <= 128,
    ensures
        128 * a <= a * (128 - w) + b * w <= 128 * b,
{
    assert(128 * a <= a * (128 - w) + b * w <= 128 * b) by (nonlinear_arith)
        requires
            a <= b,
            0 <= w <= 128,
    ;
}

/// A squashed value is a probability that excludes neither outcome.
pub proof fn lemma_squashed_range(d: int)
    ensures
        1 <= squashed(d) <= 4094,
{
    let e = clamped(d, -2047, 2047) + 2048;
    lemma_curve(e / 128);
    lemma_between(SQUASH_T@[e / 128] as int, SQUASH_T@[e / 128 + 1] as int, e % 128);
}

/// `squashed` never falls.
proof fn lemma_squashed_step(d: int)
    ensures
        squashed(d) <= squashed(d + 1),
{
    if -2047 <= d < 2047 {
        let e = d + 2048;
        let i = e / 128;
        let w = e % 128;
        lemma_curve(i);
        let a = SQUASH_T@[i] as int;
        let b = SQUASH_T@[i + 1] as int;
        if w < 127 {
            assert((e + 1) / 128 == i && (e + 1) % 128 == w + 1);
            assert(a * (128 - w) + b * w <= a * (128 - (w + 1)) + b * (w + 1)) by (nonlinear_arith)
                requires
                    a <= b,
            ;
        } else {
            assert((e + 1) / 128 == i + 1 && (e + 1) % 128 == 0);
            lemma_between(a, b, w);
        }
    }
}

/// The logistic map never falls: a larger value is never less probable.
pub proof fn law_squash_is_monotonic(d: int, e: int)
    requires
        d <= e,
    ensures
        squashed(d) <= squashed(e),
    decreases e - d,
{
    if d < e {
        law_squash_is_monotonic(d, e - 1);
        lemma_squashed_step(e - 1);
    }
}

proof fn lemma_first_reaching(p: int, x: int)
    requires
        -2047 <= x <= 2047,
    ensures
        x <= first_reaching(p, x) <= 2047,
        forall|y: int| x <= y < first_reaching(p, x) ==> squashed(y) < p,
        first_reaching(p, x) < 2047 ==> squashed(first_reaching(p, x)) >= p,
    decreases 2047 - x,
{
    if x < 2047 && squashed(x) < p {
        lemma_first_reaching(p, x + 1);
    }
}

/// `stretched` inverts `squashed`: it is the least logistic value whose
/// probability reaches `p`, for every probability that `squashed` takes.
pub proof fn law_stretch_inverts_squash(p: int)
    requires
        0 <= p <= 4094,
    ensures
        -2047 <= stretched(p) <= 2047,
        squashed(stretched(p)) >= p,
        forall|y: int| -2047 <= y < stretched(p) ==> squashed(y) < p,
{
    lemma_first_reaching(p, -2047);
    let t = SQUASH_T@;
    assert(t[31] == 4093 && t[32] == 4094);
    assert(4095int / 128 == 31 && 4095int % 128 == 127);
    assert(squashed(2047) == (4093 * (128 - 127) + 4094 * 127 + 64) / 128);
}

/// A stretched value stays inside the logistic domain.
pub proof fn lemma_stretched_range(p: int)
    ensures
        -2047 <= stretched(p) <= 2047,
{
    lemma_first_reaching(clamped(p, 0, 4095), -2047);
}

/// The stretched value of `p` is `x` where `x` is the first to reach it.
proof fn lemma_stretched_is(p: int, x: int)
    requires
        0 <= p <= 4095,
        -2047 <= x <= 2047,
        forall|y: int| -2047 <= y < x ==> squashed(y) < p,
        x == 2047 || squashed(x) >= p,
    ensures
        stretched(p) == x,
{
    lemma_first_reaching(p, -2047);
    let s = stretched(p);
    if s < x {
        assert(squashed(s) < p);
    }
}

/// Inverse of `stretch`: maps a logistic value in [-2047, 2047] to a 12-bit
/// probability.
pub fn squash(d: i32) -> (p: i32)
    ensures
        p == squashed(d as int),
        1 <= p <= 4094,
{
    proof {
        lemma_squashed_range(d as int);
    }
    let c: i32 = if d < -2047 {
        -2047
    } else if d > 2047 {
        2047
    } else {
        d
    };
    let e: usize = (c + 2048) as usize;
    let i: usize = e / 128;
    let w: i32 = (e % 128) as i32;
    proof {
        lemma_curve(i as int);
        let a = SQUASH_T@[i as int] as int;
        let b = SQUASH_T@[i + 1] as int;
        assert(0 <= a * (128 - w) <= 4094 * 128 && 0 <= b * w <= 4094 * 128) by (nonlinear_arith)
            requires
                1 <= a <= 4094,
                1 <= b <= 4094,
                0 <= w < 128,
        ;
    }
    (SQUASH_T[i] * (128 - w) + SQUASH_T[i + 1] * w + 64) / 128
}

/// Maps a 12-bit probability to the logistic domain.
pub fn stretch(p: i32) -> (d: i32)
    ensures
        d == stretched(p as int),
        -2047 <= d <= 2047,
{
    let q: i32 = if p < 0 {
        0
    } else if p > 4095 {
        4095
    } else {
        p
    };
    let mut lo: i32 = -2047;
    let mut hi: i32 = 2047;
    while lo < hi
        invariant
            -2047 <= lo <= hi <= 2047,
            forall|y: int| -2047 <= y < lo ==> squashed(y) < q,
            hi == 2047 || squashed(hi as int) >= q,
        decreases hi - lo,
    {
        let mid: i32 = lo + (hi - lo) / 2;
        if squash(mid) >= q {
            hi = mid;
        } else {
            assert forall|y: int| -2047 <= y < mid + 1 implies squashed(y) < q by {
                law_squash_is_monotonic(y, mid as int);
            }
            lo = mid + 1;
        }
    }
    proof {
        lemma_stretched_is(q as int, lo as int);
    }
    lo
}

/// Every stretched value, indexed by its probability.
pub open spec fn is_stretch_table(t: Seq<i16>) -> bool {
    &&& t.len() == 4096
    &&& forall|p: int| 0 <= p < 4096 ==> #[trigger] t[p] == stretched(p)
}

/// The stretched values of all 12-bit probabilities.
pub fn stretch_table() -> (t: Vec<i16>)
    ensures
        is_stretch_table(t@),
{
    let mut t: Vec<i16> = Vec::with_capacity(4096);
    let mut x: i32 = -2047;
    // `squash` is monotonic, so invert it by sweeping the logistic domain.
    while x <= 2047
        invariant
            -2047 <= x <= 2048,
            t@.len() <= 4096,
            forall|p: int| 0 <= p < t@.len() ==> #[trigger] t@[p] == stretched(p),
            forall|y: int| -2047 <= y < x ==> #[trigger] squashed(y) < t@.len(),
        decreases 2048 - x,
    {
        let v: usize = squash(x) as usize;
        while t.len() <= v
            invariant
                -2047 <= x <= 2047,
                v == squashed(x as int),
                v <= 4094,
                t@.len() <= 4096,
                forall|p: int| 0 <= p < t@.len() ==> #[trigger] t@[p] == stretched(p),
                forall|y: int| -2047 <= y < x ==> #[trigger] squashed(y) < t@.len(),
            decreases 4096 - t@.len(),
        {
            proof {
                lemma_stretched_is(t@.len() as int, x as int);
            }
            t.push(x as i16);
        }
        x = x + 1;
    }
    while t.len() < 4096
        invariant
            t@.len() <= 4096,
            forall|p: int| 0 <= p < t@.len() ==> #[trigger] t@[p] == stretched(p),
            forall|y: int| -2047 <= y < 2048 ==> #[trigger] squashed(y) < t@.len(),
        decreases 4096 - t@.len(),
    {
        proof {
            lemma_stretched_is(t@.len() as int, 2047);
        }
        t.push(2047);
    }
    t
}

/// `stretch` by table.
pub fn stretch_by(t: &Vec<i16>, p: i32) -> (d: i32)
    requires
        is_stretch_table(t@),
        0 <= p < 4096,
    ensures
        d == stretched(p as int),
        -2047 <= d <= 2047,
{
    proof {
        lemma_stretched_range(p as int);
    }
    t[p as usize] as i32
}

/// The logistic map goes through the sampled curve, and runs straight between
/// two samples, to the nearest whole number; beyond its ends it stays there.
pub proof fn law_squash_follows_the_curve(i: int, w: int, d: int)
    requires
        0 <= i < 32,
        0 <= w < 128,
        i > 0 || w > 0,
    ensures
        ({
            let t = seq![
                1int, 2, 3, 6, 10, 16, 27, 45, 73, 120, 194, 310, 488, 747, 1101, 1546, 2047, 2549,
                2994, 3348, 3607, 3785, 3901, 3975, 4024, 4050, 4068, 4079, 4085, 4089, 4092, 4093,
                4094,
            ];
            let p = squashed((i - 16) * 128 + w);
            &&& -64 <= t[i] * (128 - w) + t[i + 1] * w - 128 * p < 64
            &&& w == 0 ==> p == t[i]
        }),
        d < -2047 ==> squashed(d) == squashed(-2047),
        d > 2047 ==> squashed(d) == squashed(2047),
{
    let t = seq![
        1int, 2, 3, 6, 10, 16, 27, 45, 73, 120, 194, 310, 488, 747, 1101, 1546, 2047, 2549, 2994,
        3348, 3607, 3785, 3901, 3975, 4024, 4050, 4068, 4079, 4085, 4089, 4092, 4093, 4094,
    ];
    lemma_curve(i);
    assert(forall|k: int| 0 <= k < 33 ==> #[trigger] SQUASH_T@[k] == t[k]);
    let e = (i - 16) * 128 + w + 2048;
    assert(e == i * 128 + w);
    assert(e / 128 == i && e % 128 == w);
}

/// What no logistic value reaches is stretched as far as it goes.
pub proof fn law_stretch_ends(p: int)
    ensures
        p <= 1 ==> stretched(p) == -2047,
        p >= 4095 ==> stretched(p) == 2047,
{
    lemma_first_reaching(clamped(p, 0, 4095), -2047);
    lemma_squashed_range(-2047);
    if p >= 4095 && stretched(p) < 2047 {
        lemma_squashed_range(stretched(p));
    }
}

} // verus!
