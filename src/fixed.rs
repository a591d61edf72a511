use vstd::prelude::*;

verus! {

/// The fixed-point value that stands for 1.0 in samples and gains.
pub const ONE: i32 = 65536;

/// Number of voice slots.
pub const VOICES: usize = 16;

/// Full scale of a voice envelope.
pub const AMP_ONE: u32 = 1073741824;

/// One full cycle of an oscillator's phase.
pub const PHASE_ONE: u64 = 4294967296;

/// Lowest frequency a voice plays, in milli-hertz (1 Hz).
pub const MIN_FREQ: u32 = 1000;

/// Divisor of the envelope's one-pole smoothing step (a coefficient of 1/1000).
pub const SMOOTH_DIV: u32 = 1000;

/// Envelope level under which a voice counts as silent (about 1e-5 of full scale).
pub const SILENT_AMP: u32 = 10737;

/// Master gain of a freshly made parameter set (0.2).
pub const DEFAULT_GAIN: i32 = 13107;

pub open spec fn clamp(x: int, lo: int, hi: int) -> int {
    if x < lo {
        lo
    } else if x > hi {
        hi
    } else {
        x
    }
}

pub open spec fn abs(x: int) -> int {
    if x < 0 {
        -x
    } else {
        x
    }
}

/// `x * y / unit` rounded toward zero, for a factor `y >= 0` and `unit > 0`.
pub open spec fn scale(x: int, y: int, unit: int) -> int {
    if x < 0 {
        -((-x) * y / unit)
    } else {
        x * y / unit
    }
}

/// The soft limiter `x / (1 + |x|)` on Q16 values, rounded toward zero.
pub open spec fn limit(x: int) -> int {
    if x < 0 {
        -(((-x) * ONE) / (ONE + (-x)))
    } else {
        (x * ONE) / (ONE + x)
    }
}

/// `1 / sqrt(k)` in Q16, rounded down, for a count of 1 to 16 voices.
pub open spec fn norm_q16(k: int) -> int {
    if k == 1 {
        65536
    } else if k == 2 {
        46340
    } else if k == 3 {
        37837
    } else if k == 4 {
        32768
    } else if k == 5 {
        29308
    } else if k == 6 {
        26754
    } else if k == 7 {
        24770
    } else if k == 8 {
        23170
    } else if k == 9 {
        21845
    } else if k == 10 {
        20724
    } else if k == 11 {
        19759
    } else if k == 12 {
        18918
    } else if k == 13 {
        18176
    } else if k == 14 {
        17515
    } else if k == 15 {
        16921
    } else if k == 16 {
        16384
    } else {
        0
    }
}

/// A Q16 sample as a signed 16-bit one: scaled by 32767, rounded toward zero,
/// clamped to the type's range.
pub open spec fn i16_sample(s: int) -> int {
    clamp(scale(s, 32767, ONE as int), -32768, 32767)
}

/// A Q16 sample as an unsigned 16-bit one: `(s / 2 + 1 / 2) * 65535`,
/// rounded toward zero, clamped to the type's range.
pub open spec fn u16_sample(s: int) -> int {
    clamp(scale(s + ONE, 65535, 2 * ONE), 0, 65535)
}

pub proof fn lemma_div_le(m: int, y: int, unit: int)
    requires
        m >= 0,
        0 <= y <= unit,
        unit > 0,
    ensures
        0 <= m * y / unit <= m,
{
    assert(m * y <= m * unit) by (nonlinear_arith)
        requires
            m >= 0,
            0 <= y <= unit,
    ;
    vstd::arithmetic::div_mod::lemma_div_is_ordered(m * y, m * unit, unit);
    vstd::arithmetic::div_mod::lemma_div_by_multiple(m, unit);
    assert(0 <= m * y) by (nonlinear_arith)
        requires
            m >= 0,
            y >= 0,
    ;
    vstd::arithmetic::div_mod::lemma_div_pos_is_pos(m * y, unit);
}

/// Scaling by a factor of at most one never grows a magnitude.
pub proof fn lemma_scale_bound(x: int, y: int, unit: int)
    requires
        0 <= y <= unit,
        unit > 0,
    ensures
        abs(scale(x, y, unit)) <= abs(x),
        x >= 0 ==> scale(x, y, unit) >= 0,
        x <= 0 ==> scale(x, y, unit) <= 0,
{
    lemma_div_le(abs(x), y, unit);
}

/// Clamps a Q16 sample to [-1, 1].
pub fn clamp_sample(x: i32) -> (r: i32)
    ensures
        r == clamp(x as int, -ONE as int, ONE as int),
{
    if x < -ONE {
        -ONE
    } else if x > ONE {
        ONE
    } else {
        x
    }
}

/// Clamps a Q16 gain to [0, 1].
pub fn clamp_gain(g: i32) -> (r: i32)
    ensures
        r == clamp(g as int, 0, ONE as int),
{
    if g < 0 {
        0
    } else if g > ONE {
        ONE
    } else {
        g
    }
}

/// Raises a frequency to the lowest playable one.
pub fn floor_freq(f: u32) -> (r: u32)
    ensures
        r == if f < MIN_FREQ { MIN_FREQ } else { f },
{
    if f < MIN_FREQ {
        MIN_FREQ
    } else {
        f
    }
}

/// `x * y / unit` rounded toward zero.
pub fn scale_by(x: i64, y: u64, unit: u64) -> (r: i64)
    requires
        unit > 0,
        y <= unit,
        abs(x as int) <= i64::MAX,
        abs(x as int) * y <= i64::MAX,
    ensures
        r == scale(x as int, y as int, unit as int),
        abs(r as int) <= abs(x as int),
{
    proof {
        lemma_scale_bound(x as int, y as int, unit as int);
    }
    if x < 0 {
        let m: u64 = (-x) as u64;
        let q: u64 = m * y / unit;
        -(q as i64)
    } else {
        let m: u64 = x as u64;
        let q: u64 = m * y / unit;
        q as i64
    }
}

/// The soft limiter `x / (1 + |x|)` on Q16 values, for every input.
pub fn soft_clip(x: i64) -> (r: i32)
    ensures
        r == limit(x as int),
        -ONE < r < ONE,
{
    proof {
        lemma_limiter_range(x as int);
    }
    let m: u128 = if x < 0 {
        (-(x as i128)) as u128
    } else {
        x as u128
    };
    let q: u128 = m * (ONE as u128) / ((ONE as u128) + m);
    if x < 0 {
        -(q as i32)
    } else {
        q as i32
    }
}

/// The soft limiter's output lies strictly between -1 and 1, whatever its input.
pub proof fn lemma_limiter_range(x: int)
    ensures
        -ONE < limit(x) < ONE,
        x >= 0 ==> limit(x) >= 0,
        x <= 0 ==> limit(x) <= 0,
{
    let m = abs(x);
    let d = ONE + m;
    let q = (m * ONE) / d;
    vstd::arithmetic::div_mod::lemma_fundamental_div_mod(m * ONE, d);
    vstd::arithmetic::div_mod::lemma_mod_pos_bound(m * ONE, d);
    assert(0 <= m * ONE) by (nonlinear_arith)
        requires
            m >= 0,
    ;
    vstd::arithmetic::div_mod::lemma_div_pos_is_pos(m * ONE, d);
    assert(q < ONE) by (nonlinear_arith)
        requires
            m >= 0,
            d == ONE + m,
            q >= 0,
            m * ONE == d * q + (m * ONE) % d,
            (m * ONE) % d >= 0,
    ;
}

/// The soft limiter treats positive and negative excursions alike.
pub proof fn lemma_limiter_odd(x: int)
    ensures
        limit(-x) == -limit(x),
{
}

proof fn lemma_quotient_below(q: int, n: int, d: int)
    requires
        d > 0,
        n >= 0,
        q * d <= n,
    ensures
        q <= n / d,
{
    vstd::arithmetic::div_mod::lemma_fundamental_div_mod(n, d);
    vstd::arithmetic::div_mod::lemma_mod_pos_bound(n, d);
    let f = n / d;
    assert(q <= f) by (nonlinear_arith)
        requires
            d > 0,
            q * d <= n,
            n == d * f + n % d,
            n % d < d,
    ;
}

proof fn lemma_limiter_monotone_nonneg(a: int, b: int)
    requires
        0 <= a <= b,
    ensures
        limit(a) <= limit(b),
{
    lemma_limiter_range(a);
    let fa = limit(a);
    vstd::arithmetic::div_mod::lemma_fundamental_div_mod(a * ONE, ONE + a);
    vstd::arithmetic::div_mod::lemma_mod_pos_bound(a * ONE, ONE + a);
    assert(fa * (ONE + a) <= a * ONE);
    assert(fa * (ONE + b) <= b * ONE) by (nonlinear_arith)
        requires
            fa * (ONE + a) <= a * ONE,
            0 <= fa < ONE,
            0 <= a <= b,
    ;
    lemma_quotient_below(fa, b * ONE, ONE + b);
}

/// The soft limiter never reverses the order of two inputs.
pub proof fn lemma_limiter_monotone(a: int, b: int)
    requires
        a <= b,
    ensures
        limit(a) <= limit(b),
{
    lemma_limiter_range(a);
    lemma_limiter_range(b);
    if 0 <= a {
        lemma_limiter_monotone_nonneg(a, b);
    } else if b <= 0 {
        lemma_limiter_monotone_nonneg(-b, -a);
        lemma_limiter_odd(a);
        lemma_limiter_odd(b);
    }
}

/// `1 / sqrt(k)` in Q16 for a count of 1 to 16 voices.
pub fn norm_factor(k: u32) -> (r: u32)
    requires
        1 <= k <= VOICES,
    ensures
        r == norm_q16(k as int),
{
    let table: [u32; 16] = [
        65536, 46340, 37837, 32768, 29308, 26754, 24770, 23170, 21845, 20724, 19759, 18918, 18176,
        17515, 16921, 16384,
    ];
    table[(k - 1) as usize]
}

/// Each table entry is the largest Q16 value `r` with `k * r^2 <= 1`.
pub proof fn lemma_norm_is_inverse_root(k: int)
    requires
        1 <= k <= VOICES,
    ensures
        k * norm_q16(k) * norm_q16(k) <= ONE * ONE,
        k * (norm_q16(k) + 1) * (norm_q16(k) + 1) > ONE * ONE,
        0 < norm_q16(k) <= ONE,
{
    let r = norm_q16(k);
    assert(k * r * r <= ONE * ONE && k * (r + 1) * (r + 1) > ONE * ONE && 0 < r <= ONE)
        by (nonlinear_arith)
        requires
            1 <= k <= VOICES,
            r == norm_q16(k),
    ;
}

/// Encodes a Q16 sample for a signed 16-bit output.
pub fn encode_i16(s: i32) -> (r: i16)
    ensures
        r == i16_sample(s as int),
{
    let v: i64 = scale_by(s as i64, 32767, ONE as u64);
    if v < -32768 {
        -32768
    } else if v > 32767 {
        32767
    } else {
        v as i16
    }
}

/// Encodes a Q16 sample for an unsigned 16-bit output.
pub fn encode_u16(s: i32) -> (r: u16)
    ensures
        r == u16_sample(s as int),
{
    let v: i64 = scale_by(s as i64 + ONE as i64, 65535, 2 * ONE as u64);
    if v < 0 {
        0
    } else if v > 65535 {
        65535
    } else {
        v as u16
    }
}

} // verus!
