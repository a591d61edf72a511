use vstd::prelude::*;

use crate::fixed::{AMP_ONE, PHASE_ONE, SILENT_AMP, SMOOTH_DIV};

verus! {

/// What the control side sets for one voice: a frequency in milli-hertz, and
/// whether the voice should sound.
#[derive(Clone, Copy, Debug, PartialEq, Eq, Structural)]
pub struct VoiceControl {
    pub freq: u32,
    pub gate: bool,
}

/// The render side's state of one voice: its phase, a fraction of
/// `PHASE_ONE`, and its smoothed envelope, a fraction of `AMP_ONE`.
#[derive(Clone, Copy, Debug, PartialEq, Eq, Structural)]
pub struct Oscillator {
    pub phase: u64,
    pub amp: u32,
}

impl Oscillator {
    pub open spec fn wf(self) -> bool {
        self.phase < PHASE_ONE && self.amp <= AMP_ONE
    }

    /// A silent oscillator at the start of its cycle.
    pub fn new() -> (r: Oscillator)
        ensures
            r.phase == 0,
            r.amp == 0,
            r.wf(),
    {
        Oscillator { phase: 0, amp: 0 }
    }
}

/// The envelope level a gate asks for.
pub open spec fn amp_target(gate: bool) -> int {
    if gate {
        AMP_ONE as int
    } else {
        0
    }
}

/// How far one smoothing step moves across a distance `d > 0`: a thousandth
/// of it, and at least one unit.
pub open spec fn step_size(d: int) -> int {
    if d / (SMOOTH_DIV as int) > 0 {
        d / (SMOOTH_DIV as int)
    } else {
        1
    }
}

/// The envelope after one smoothing step toward the level its gate asks for.
pub open spec fn smooth(amp: int, gate: bool) -> int {
    let d = amp_target(gate) - amp;
    if d > 0 {
        amp + step_size(d)
    } else if d < 0 {
        amp - step_size(-d)
    } else {
        amp
    }
}

/// The envelope after `n` steps under a fixed gate.
pub open spec fn amp_after(amp: int, gate: bool, n: nat) -> int
    decreases n,
{
    if n == 0 {
        amp
    } else {
        amp_after(smooth(amp, gate), gate, (n - 1) as nat)
    }
}

/// How far the phase moves in one frame: `freq / rate` of a cycle, with
/// `freq` in milli-hertz and `rate` in frames per second, rounded down.
pub open spec fn phase_inc(freq: int, rate: int) -> int {
    freq * (PHASE_ONE as int) / (rate * 1000)
}

/// A phase moved on by an increment, wrapped to one cycle.
pub open spec fn advance(phase: int, inc: int) -> int {
    (phase + inc) % (PHASE_ONE as int)
}

/// A smoothing step never leaves [0, full scale], never passes its target,
/// and moves at least one unit while the target is not reached.
pub proof fn lemma_smooth_step(amp: int, gate: bool)
    requires
        0 <= amp <= AMP_ONE,
    ensures
        0 <= smooth(amp, gate) <= AMP_ONE,
        amp < amp_target(gate) ==> amp < smooth(amp, gate) <= amp_target(gate),
        amp > amp_target(gate) ==> amp_target(gate) <= smooth(amp, gate) < amp,
        amp == amp_target(gate) ==> smooth(amp, gate) == amp,
{
}

pub proof fn lemma_amp_after_last(a: int, g: bool, n: nat)
    ensures
        amp_after(a, g, n + 1) == smooth(amp_after(a, g, n), g),
    decreases n,
{
    reveal_with_fuel(amp_after, 2);
    if n > 0 {
        lemma_amp_after_last(smooth(a, g), g, (n - 1) as nat);
    }
}

pub proof fn lemma_amp_after_range(a: int, g: bool, n: nat)
    requires
        0 <= a <= AMP_ONE,
    ensures
        0 <= amp_after(a, g, n) <= AMP_ONE,
    decreases n,
{
    lemma_smooth_step(a, g);
    if n > 0 {
        lemma_amp_after_range(smooth(a, g), g, (n - 1) as nat);
    }
}

/// Frames after which a released voice is surely silent.
pub const RELEASE_FRAMES: u64 = 17000;

/// The envelope under a fixed gate for `n1 + n2` steps is `n2` steps after
/// `n1` steps.
pub proof fn lemma_amp_after_split(a: int, g: bool, n1: nat, n2: nat)
    ensures
        amp_after(a, g, n1 + n2) == amp_after(amp_after(a, g, n1), g, n2),
    decreases n1,
{
    if n1 > 0 {
        lemma_amp_after_split(smooth(a, g), g, (n1 - 1) as nat, n2);
        assert((n1 + n2 - 1) as nat == ((n1 - 1) as nat + n2));
    }
}

/// While its gate is off, the envelope's excess over 999 shrinks by at least a
/// factor of 999/1000 each step (or the envelope is already below 1000).
proof fn lemma_release_step(amp: int)
    requires
        0 <= amp <= AMP_ONE,
    ensures
        1000 * (smooth(amp, false) - 999) <= 999 * (amp - 999),
{
}

pub open spec fn excess(amp: int) -> int {
    if amp > 999 {
        amp - 999
    } else {
        0
    }
}

/// After `k` released steps the excess over 999 is at most `1000 / (1000 + k)`
/// of what it was.
proof fn lemma_release_decay(a: int, k: nat)
    requires
        0 <= a <= AMP_ONE,
    ensures
        (amp_after(a, false, k) - 999) * (1000 + k) <= 1000 * excess(a),
    decreases k,
{
    if k == 0 {
        assert((a - 999) * 1000 <= 1000 * excess(a));
    } else {
        let m = (k - 1) as nat;
        lemma_release_decay(a, m);
        lemma_amp_after_range(a, false, m);
        lemma_amp_after_last(a, false, m);
        let x = amp_after(a, false, m);
        let y = amp_after(a, false, k);
        lemma_release_step(x);
        assert(y == smooth(x, false));
        let d = x - 999;
        let e = excess(a);
        assert((y - 999) * (1000 + k) <= 1000 * e) by (nonlinear_arith)
            requires
                1000 * (y - 999) <= 999 * d,
                d * (1000 + m) <= 1000 * e,
                e >= 0,
                k == m + 1,
        {
            if d <= 0 {
                assert(y - 999 <= 0);
            } else {
                assert(1000 * (y - 999) * (1000 + k) <= 999 * d * (1000 + k));
                assert(999 * d * (1000 + k) <= 1000 * d * (1000 + m));
            }
        }
    }
}

pub open spec fn two_pow(m: nat) -> int
    decreases m,
{
    if m == 0 {
        1
    } else {
        2 * two_pow((m - 1) as nat)
    }
}

proof fn lemma_two_pow_pos(m: nat)
    ensures
        two_pow(m) > 0,
    decreases m,
{
    if m > 0 {
        lemma_two_pow_pos((m - 1) as nat);
    }
}

/// While its gate is off, the excess over 999 at least halves every thousand
/// steps.
proof fn lemma_release_halvings(a: int, m: nat)
    requires
        0 <= a <= AMP_ONE,
    ensures
        (amp_after(a, false, 1000 * m) - 999) * two_pow(m) <= excess(a),
    decreases m,
{
    if m == 0 {
        assert(1000 * m == 0);
        assert((a - 999) * 1 <= excess(a));
    } else {
        let p = (m - 1) as nat;
        lemma_release_halvings(a, p);
        lemma_amp_after_range(a, false, 1000 * p);
        let x = amp_after(a, false, 1000 * p);
        lemma_release_decay(x, 1000);
        lemma_amp_after_split(a, false, 1000 * p, 1000);
        assert(1000 * p + 1000 == 1000 * m);
        let y = amp_after(x, false, 1000);
        assert(y == amp_after(a, false, 1000 * m));
        let q = two_pow(p);
        lemma_two_pow_pos(p);
        assert(two_pow(m) == 2 * q);
        assert((y - 999) * (2 * q) <= excess(a)) by (nonlinear_arith)
            requires
                (y - 999) * 2000 <= 1000 * excess(x),
                (x - 999) * q <= excess(a),
                q > 0,
                excess(x) == if x > 999 { x - 999 } else { 0 },
                excess(a) >= 0,
        {
            if x <= 999 {
                assert(y - 999 <= 0);
            } else {
                assert(2 * (y - 999) <= x - 999);
            }
        }
    }
}

/// While its gate is off, the envelope never rises.
proof fn lemma_release_nonincreasing(a: int, n: nat)
    requires
        0 <= a <= AMP_ONE,
    ensures
        amp_after(a, false, n) <= a,
    decreases n,
{
    lemma_smooth_step(a, false);
    if n > 0 {
        lemma_release_nonincreasing(smooth(a, false), (n - 1) as nat);
    }
}

/// Once its gate is off, a voice's envelope never rises, and from
/// `RELEASE_FRAMES` frames on it lies below the silence threshold, wherever
/// it started.
pub proof fn lemma_release_silent(amp: int, n: nat)
    requires
        0 <= amp <= AMP_ONE,
    ensures
        amp_after(amp, false, n) <= amp,
        n >= RELEASE_FRAMES ==> amp_after(amp, false, n) < SILENT_AMP,
{
    lemma_release_nonincreasing(amp, n);
    if n >= RELEASE_FRAMES {
        lemma_release_halvings(amp, 17);
        reveal_with_fuel(two_pow, 18);
        assert(two_pow(17) == 131072);
        let x = amp_after(amp, false, 17000);
        assert(1000 * 17nat == 17000nat);
        assert((x - 999) * 131072 <= excess(amp));
        assert(excess(amp) < AMP_ONE);
        assert(x < 10737) by (nonlinear_arith)
            requires
                (x - 999) * 131072 <= excess(amp),
                excess(amp) < 1073741824,
        ;
        lemma_amp_after_range(amp, false, 17000);
        lemma_amp_after_split(amp, false, 17000, (n - 17000) as nat);
        lemma_release_nonincreasing(x, (n - 17000) as nat);
    }
}

/// The envelope's attack mirrors its release: the distance below full scale
/// under a gate that is on follows the same steps as the level under a gate
/// that is off.
proof fn lemma_attack_mirrors_release(a: int, n: nat)
    requires
        0 <= a <= AMP_ONE,
    ensures
        amp_after(a, true, n) == AMP_ONE - amp_after(AMP_ONE - a, false, n),
    decreases n,
{
    lemma_smooth_step(a, true);
    assert(smooth(a, true) == AMP_ONE - smooth(AMP_ONE - a, false));
    if n > 0 {
        lemma_attack_mirrors_release(smooth(a, true), (n - 1) as nat);
    }
}

/// Once its gate is on, a voice's envelope never falls, and from
/// `RELEASE_FRAMES` frames on it lies within the silence threshold of full
/// scale, wherever it started.
pub proof fn lemma_attack_settles(amp: int, n: nat)
    requires
        0 <= amp <= AMP_ONE,
    ensures
        amp <= amp_after(amp, true, n) <= AMP_ONE,
        n >= RELEASE_FRAMES ==> amp_after(amp, true, n) > AMP_ONE - SILENT_AMP,
{
    lemma_attack_mirrors_release(amp, n);
    lemma_release_silent(AMP_ONE - amp, n);
    lemma_amp_after_range(AMP_ONE - amp, false, n);
}

/// One step of the envelope filter.
pub fn smooth_amp(amp: u32, gate: bool) -> (r: u32)
    requires
        amp <= AMP_ONE,
    ensures
        r == smooth(amp as int, gate),
        r <= AMP_ONE,
{
    proof {
        lemma_smooth_step(amp as int, gate);
    }
    let target: u32 = if gate {
        AMP_ONE
    } else {
        0
    };
    if target > amp {
        let d: u32 = target - amp;
        let s: u32 = if d / SMOOTH_DIV > 0 {
            d / SMOOTH_DIV
        } else {
            1
        };
        amp + s
    } else if target < amp {
        let d: u32 = amp - target;
        let s: u32 = if d / SMOOTH_DIV > 0 {
            d / SMOOTH_DIV
        } else {
            1
        };
        amp - s
    } else {
        amp
    }
}

/// The phase increment of one frame for a frequency in milli-hertz.
pub fn phase_increment(freq: u32, rate: u32) -> (r: u64)
    requires
        rate > 0,
    ensures
        r == phase_inc(freq as int, rate as int),
{
    assert((freq as int) * (PHASE_ONE as int) <= (u32::MAX as int) * (PHASE_ONE as int))
        by (nonlinear_arith)
        requires
            freq <= u32::MAX,
    ;
    let num: u64 = freq as u64 * PHASE_ONE;
    let den: u64 = rate as u64 * 1000;
    num / den
}

/// Moves a phase on by an increment and wraps it to one cycle.
pub fn advance_phase(phase: u64, inc: u64) -> (r: u64)
    requires
        phase < PHASE_ONE,
        inc <= u64::MAX - PHASE_ONE,
    ensures
        r == advance(phase as int, inc as int),
        r < PHASE_ONE,
{
    (phase + inc) % PHASE_ONE
}

} // verus!
