use vstd::prelude::*;

use crate::fixed::{clamp, clamp_sample, ONE, PHASE_ONE};

verus! {

pub open spec fn in_unit_range(x: int) -> bool {
    -ONE <= x <= ONE
}

/// Every sample clamped to [-1, 1].
pub open spec fn clamped_samples(s: Seq<i32>) -> Seq<i32> {
    s.map_values(|x: i32| clamp(x as int, -ONE as int, ONE as int) as i32)
}

/// The table read at a phase (a fraction of `PHASE_ONE`): linear interpolation
/// between the sample at the position's integer part and its successor,
/// wrapping at the end, weighted by the position's fractional part and
/// rounded down.
pub open spec fn interp(t: Seq<i32>, phase: int) -> int {
    let pos = phase * t.len();
    let i0 = pos / (PHASE_ONE as int);
    let frac = pos % (PHASE_ONE as int);
    let i1 = (i0 + 1) % (t.len() as int);
    let u0 = t[i0] + ONE;
    let u1 = t[i1] + ONE;
    (u0 * (PHASE_ONE - frac) + u1 * frac) / (PHASE_ONE as int) - ONE
}

/// One cycle of a waveform, each sample a Q16 value in [-1, 1].
pub struct Wavetable {
    samples: Vec<i32>,
}

impl View for Wavetable {
    type V = Seq<i32>;

    closed spec fn view(&self) -> Seq<i32> {
        self.samples@
    }
}

impl Wavetable {
    #[verifier::type_invariant]
    spec fn inv(&self) -> bool {
        forall|i: int|
            0 <= i < self.samples@.len() ==> #[trigger] in_unit_range(self.samples@[i] as int)
    }

    /// Makes a table of the given samples, each clamped to [-1, 1].
    pub fn from_samples(samples: Vec<i32>) -> (r: Wavetable)
        ensures
            r@ == clamped_samples(samples@),
    {
        let ghost orig = samples@;
        let mut s = samples;
        let mut i: usize = 0;
        while i < s.len()
            invariant
                0 <= i <= s@.len(),
                s@.len() == orig.len(),
                forall|j: int|
                    0 <= j < i ==> s@[j] == clamp(orig[j] as int, -ONE as int, ONE as int),
                forall|j: int| i <= j < s@.len() ==> s@[j] == orig[j],
            decreases s@.len() - i,
        {
            let c = clamp_sample(s[i]);
            s.set(i, c);
            i += 1;
        }
        assert(s@ =~= clamped_samples(orig));
        let r = Wavetable { samples: s };
        r
    }

    pub fn len(&self) -> (r: usize)
        ensures
            r == self@.len(),
    {
        self.samples.len()
    }

    pub fn is_empty(&self) -> (r: bool)
        ensures
            r == (self@.len() == 0),
    {
        self.samples.len() == 0
    }

    pub fn get(&self, i: usize) -> (r: i32)
        requires
            i < self@.len(),
        ensures
            r == self@[i as int],
            in_unit_range(r as int),
    {
        proof {
            use_type_invariant(self);
        }
        self.samples[i]
    }

    /// Reads the table at a phase, interpolating linearly between neighbours.
    pub fn sample_at(&self, phase: u64) -> (r: i32)
        requires
            self@.len() > 0,
            phase < PHASE_ONE,
        ensures
            r == interp(self@, phase as int),
            in_unit_range(r as int),
    {
        let len: usize = self.samples.len();
        let p: u128 = PHASE_ONE as u128;
        assert((phase as int) * (len as int) < (PHASE_ONE as int) * (len as int)) by (nonlinear_arith)
            requires
                phase < PHASE_ONE,
                len > 0,
        ;
        assert(PHASE_ONE as int * len as int <= PHASE_ONE as int * usize::MAX as int) by (nonlinear_arith)
            requires
                len <= usize::MAX,
        ;
        let pos: u128 = phase as u128 * len as u128;
        let i0w: u128 = pos / p;
        let frac: u128 = pos % p;
        proof {
            vstd::arithmetic::div_mod::lemma_fundamental_div_mod(pos as int, p as int);
            vstd::arithmetic::div_mod::lemma_mod_pos_bound(pos as int, p as int);
            assert(i0w < len) by (nonlinear_arith)
                requires
                    pos == p * i0w + frac,
                    frac >= 0,
                    pos < p * len,
                    p > 0,
            ;
        }
        let i0: usize = i0w as usize;
        let i1: usize = (i0 + 1) % len;
        let s0: i32 = self.get(i0);
        let s1: i32 = self.get(i1);
        let u0: u64 = (s0 + ONE) as u64;
        let u1: u64 = (s1 + ONE) as u64;
        let f: u64 = frac as u64;
        let w0: u64 = PHASE_ONE - f;
        proof {
            assert(u0 * w0 <= 2 * ONE * w0) by (nonlinear_arith)
                requires
                    u0 <= 2 * ONE,
                    w0 >= 0,
            ;
            assert(u1 * f <= 2 * ONE * f) by (nonlinear_arith)
                requires
                    u1 <= 2 * ONE,
                    f >= 0,
            ;
            assert(u0 * w0 >= 0 && u1 * f >= 0) by (nonlinear_arith)
                requires
                    u0 >= 0,
                    w0 >= 0,
                    u1 >= 0,
                    f >= 0,
            ;
        }
        let num: u64 = u0 * w0 + u1 * f;
        let q: u64 = num / PHASE_ONE;
        proof {
            vstd::arithmetic::div_mod::lemma_div_is_ordered(
                num as int,
                2 * ONE * PHASE_ONE,
                PHASE_ONE as int,
            );
            vstd::arithmetic::div_mod::lemma_div_by_multiple(2 * ONE as int, PHASE_ONE as int);
        }
        (q as i64 - ONE as i64) as i32
    }
}

} // verus!
