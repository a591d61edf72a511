use vstd::prelude::*;

use crate::fixed::{
    abs, lemma_limiter_range, lemma_norm_is_inverse_root, limit, norm_factor, norm_q16, scale,
    scale_by, soft_clip, AMP_ONE, ONE, PHASE_ONE, SILENT_AMP, VOICES,
};
use crate::voice::{
    advance, advance_phase, amp_after, lemma_amp_after_last, lemma_amp_after_range,
    lemma_release_silent, lemma_smooth_step, RELEASE_FRAMES, phase_inc, phase_increment, smooth,
    smooth_amp, Oscillator, VoiceControl,
};
use crate::wavetable::{in_unit_range, interp, Wavetable};

verus! {

/// A voice sounds while its envelope is at or above the silence threshold.
pub open spec fn is_active(o: Oscillator) -> bool {
    o.amp >= SILENT_AMP
}

/// One frame of a voice: the envelope takes a smoothing step; a voice that
/// stays audible also moves its phase on by `freq / rate` of a cycle.
pub open spec fn next_osc(o: Oscillator, c: VoiceControl, rate: int) -> Oscillator {
    let amp = smooth(o.amp as int, c.gate);
    if amp < SILENT_AMP {
        Oscillator { phase: o.phase, amp: amp as u32 }
    } else {
        Oscillator {
            phase: advance(o.phase as int, phase_inc(c.freq as int, rate)) as u64,
            amp: amp as u32,
        }
    }
}

/// What an oscillator adds to a frame: the table at its phase, scaled by its
/// envelope; nothing when it is silent.
pub open spec fn voice_out(t: Seq<i32>, o: Oscillator) -> int {
    if is_active(o) {
        scale(interp(t, o.phase as int), o.amp as int, AMP_ONE as int)
    } else {
        0
    }
}

pub open spec fn mix(t: Seq<i32>, os: Seq<Oscillator>) -> int
    decreases os.len(),
{
    if os.len() == 0 {
        0
    } else {
        mix(t, os.drop_last()) + voice_out(t, os.last())
    }
}

pub open spec fn count_active(os: Seq<Oscillator>) -> int
    decreases os.len(),
{
    if os.len() == 0 {
        0
    } else {
        count_active(os.drop_last()) + if is_active(os.last()) {
            1int
        } else {
            0int
        }
    }
}

/// A sum of `k` voices scaled by `1 / sqrt(k)`; zero when no voice sounds.
pub open spec fn normalize(sum: int, k: int) -> int {
    if k > 0 {
        scale(sum, norm_q16(k), ONE as int)
    } else {
        0
    }
}

pub open spec fn all_wf(os: Seq<Oscillator>) -> bool {
    forall|i: int| 0 <= i < os.len() ==> #[trigger] os[i].wf()
}

/// The oscillators after one frame; an empty table leaves them as they are.
pub open spec fn step_voices(
    t: Seq<i32>,
    os: Seq<Oscillator>,
    cs: Seq<VoiceControl>,
    rate: int,
) -> Seq<Oscillator> {
    if t.len() == 0 {
        os
    } else {
        Seq::new(os.len(), |i: int| next_osc(os[i], cs[i], rate))
    }
}

/// The oscillators after `n` frames.
pub open spec fn voices_after(
    t: Seq<i32>,
    os: Seq<Oscillator>,
    cs: Seq<VoiceControl>,
    rate: int,
    n: nat,
) -> Seq<Oscillator>
    decreases n,
{
    if n == 0 {
        os
    } else {
        step_voices(t, voices_after(t, os, cs, rate, (n - 1) as nat), cs, rate)
    }
}

/// The output sample of a frame whose oscillators have just been stepped to
/// `os`: the voices mixed, normalized, scaled by the gain and soft-limited;
/// zero for an empty table.
pub open spec fn frame_out(t: Seq<i32>, os: Seq<Oscillator>, gain: int) -> int {
    if t.len() == 0 {
        0
    } else {
        limit(scale(normalize(mix(t, os), count_active(os)), gain, ONE as int))
    }
}

proof fn lemma_phase_inc_small(freq: int, rate: int)
    requires
        0 <= freq <= u32::MAX,
        rate > 0,
    ensures
        0 <= phase_inc(freq, rate) <= u64::MAX - PHASE_ONE,
{
    let num = freq * (PHASE_ONE as int);
    let den = rate * 1000;
    assert(0 <= num <= u32::MAX * PHASE_ONE) by (nonlinear_arith)
        requires
            0 <= freq <= u32::MAX,
            num == freq * (PHASE_ONE as int),
    ;
    assert(den >= 1000) by (nonlinear_arith)
        requires
            rate > 0,
            den == rate * 1000,
    ;
    vstd::arithmetic::div_mod::lemma_div_is_ordered_by_denominator(num, 1000, den);
    vstd::arithmetic::div_mod::lemma_div_pos_is_pos(num, den);
}

/// Renders one frame: steps every oscillator and returns the output sample.
pub fn render_frame(
    table: &Wavetable,
    gain: i32,
    voices: &[VoiceControl],
    rate: u32,
    osc: &mut Vec<Oscillator>,
) -> (r: i32)
    requires
        0 <= gain <= ONE,
        rate > 0,
        voices@.len() == VOICES,
        old(osc)@.len() == VOICES,
        all_wf(old(osc)@),
    ensures
        final(osc)@ == step_voices(table@, old(osc)@, voices@, rate as int),
        r == frame_out(table@, final(osc)@, gain as int),
        all_wf(final(osc)@),
        -ONE < r < ONE,
{
    if table.is_empty() {
        return 0;
    }
    let ghost os0 = osc@;
    let mut sum: i64 = 0;
    let mut active: u32 = 0;
    let mut i: usize = 0;
    while i < VOICES
        invariant
            0 <= i <= VOICES,
            osc@.len() == VOICES,
            voices@.len() == VOICES,
            os0.len() == VOICES,
            table@.len() > 0,
            rate > 0,
            all_wf(os0),
            forall|j: int| 0 <= j < i ==> osc@[j] == next_osc(os0[j], voices@[j], rate as int),
            forall|j: int| i <= j < VOICES ==> osc@[j] == os0[j],
            all_wf(osc@),
            sum == mix(table@, osc@.take(i as int)),
            active == count_active(osc@.take(i as int)),
            abs(sum as int) <= i * ONE,
            active <= i,
        decreases VOICES - i,
    {
        let o: Oscillator = osc[i];
        let c: VoiceControl = voices[i];
        assert(o.wf());
        let amp: u32 = smooth_amp(o.amp, c.gate);
        let next: Oscillator = if amp < SILENT_AMP {
            Oscillator { phase: o.phase, amp }
        } else {
            proof {
                lemma_phase_inc_small(c.freq as int, rate as int);
            }
            let inc: u64 = phase_increment(c.freq, rate);
            Oscillator { phase: advance_phase(o.phase, inc), amp }
        };
        let ghost prev = osc@;
        osc.set(i, next);
        if amp >= SILENT_AMP {
            let s: i32 = table.sample_at(next.phase);
            assert(abs(s as int) * (amp as int) <= ONE * AMP_ONE) by (nonlinear_arith)
                requires
                    abs(s as int) <= ONE,
                    0 <= amp <= AMP_ONE,
            ;
            let v: i64 = scale_by(s as i64, amp as u64, AMP_ONE as u64);
            sum = sum + v;
            active = active + 1;
        }
        proof {
            assert(osc@.take(i as int) =~= prev.take(i as int));
            assert(osc@.take(i as int + 1).drop_last() =~= osc@.take(i as int));
            assert(osc@.take(i as int + 1).last() == next);
        }
        i = i + 1;
    }
    proof {
        assert(osc@.take(VOICES as int) =~= osc@);
        assert(osc@ =~= step_voices(table@, os0, voices@, rate as int));
    }
    let normalized: i64 = if active > 0 {
        let n: u32 = norm_factor(active);
        proof {
            lemma_norm_is_inverse_root(active as int);
            assert(abs(sum as int) * (n as int) <= VOICES * ONE * ONE) by (nonlinear_arith)
                requires
                    abs(sum as int) <= VOICES * ONE,
                    0 <= n <= ONE,
            ;
        }
        scale_by(sum, n as u64, ONE as u64)
    } else {
        0
    };
    assert(abs(normalized as int) * (gain as int) <= VOICES * ONE * ONE) by (nonlinear_arith)
        requires
            abs(normalized as int) <= VOICES * ONE,
            0 <= gain <= ONE,
    ;
    let gained: i64 = scale_by(normalized, gain as u64, ONE as u64);
    proof {
        lemma_limiter_range(gained as int);
    }
    soft_clip(gained)
}


/// `os1` and `out1` are what rendering whole frames into `out0` for
/// `channels` channels gives from table `t`, gain `g`, controls `cs` and
/// oscillators `os0`: each frame's sample on every channel of it, the
/// oscillators stepped once per frame, and the samples past the last whole
/// frame left as they were.
pub open spec fn rendered_from(
    t: Seq<i32>,
    g: int,
    cs: Seq<VoiceControl>,
    rate: int,
    channels: int,
    os0: Seq<Oscillator>,
    os1: Seq<Oscillator>,
    out0: Seq<i32>,
    out1: Seq<i32>,
) -> bool {
    let frames = (out0.len() as int) / channels;
    &&& 0 <= g <= ONE
    &&& cs.len() == VOICES
    &&& out1.len() == out0.len()
    &&& os1 == voices_after(t, os0, cs, rate, frames as nat)
    &&& forall|j: int|
        0 <= j < frames * channels ==> #[trigger] out1[j] == frame_out(
            t,
            voices_after(t, os0, cs, rate, (j / channels + 1) as nat),
            g,
        )
    &&& forall|j: int| frames * channels <= j < out0.len() ==> #[trigger] out1[j] == out0[j]
}

proof fn lemma_frame_index(f: int, ch: int, c: int, frames: int)
    requires
        0 <= f < frames,
        0 <= ch < c,
    ensures
        (f * c + ch) / c == f,
        0 <= f * c + ch < frames * c,
        f * c + ch + 1 <= (f + 1) * c,
{
    vstd::arithmetic::div_mod::lemma_fundamental_div_mod_converse(f * c + ch, c, f, ch);
    assert(0 <= f * c + ch < frames * c && f * c + ch + 1 <= (f + 1) * c) by (nonlinear_arith)
        requires
            0 <= f < frames,
            0 <= ch < c,
    ;
}

/// Renders as many whole frames as `out` holds for `channels` channels,
/// writing each frame's sample to every channel of it; samples past the last
/// whole frame are left as they were.
pub fn render_block(
    table: &Wavetable,
    gain: i32,
    voices: &[VoiceControl],
    rate: u32,
    channels: usize,
    osc: &mut Vec<Oscillator>,
    out: &mut Vec<i32>,
)
    requires
        0 <= gain <= ONE,
        rate > 0,
        channels > 0,
        voices@.len() == VOICES,
        old(osc)@.len() == VOICES,
        all_wf(old(osc)@),
    ensures
        final(out)@.len() == old(out)@.len(),
        final(osc)@ == voices_after(
            table@,
            old(osc)@,
            voices@,
            rate as int,
            ((old(out)@.len() as int) / (channels as int)) as nat,
        ),
        final(osc)@.len() == VOICES,
        all_wf(final(osc)@),
        forall|j: int|
            0 <= j < ((old(out)@.len() as int) / (channels as int)) * channels ==> #[trigger] final(out)@[j]
                == frame_out(
                table@,
                voices_after(table@, old(osc)@, voices@, rate as int, (j / channels as int + 1) as nat),
                gain as int,
            ),
        forall|j: int|
            ((old(out)@.len() as int) / (channels as int)) * channels <= j < old(out)@.len()
                ==> #[trigger] final(out)@[j] == old(out)@[j],
        forall|j: int|
            0 <= j < ((old(out)@.len() as int) / (channels as int)) * channels ==> -ONE
                < #[trigger] final(out)@[j] < ONE,
{
    let frames: usize = out.len() / channels;
    let ghost os0 = osc@;
    let ghost out0 = out@;
    proof {
        vstd::arithmetic::div_mod::lemma_fundamental_div_mod(out0.len() as int, channels as int);
        vstd::arithmetic::div_mod::lemma_mod_pos_bound(out0.len() as int, channels as int);
        assert(frames * channels <= out0.len());
    }
    let mut f: usize = 0;
    while f < frames
        invariant
            0 <= f <= frames,
            frames == (out0.len() as int) / (channels as int),
            frames * channels <= out0.len(),
            out0.len() <= usize::MAX,
            channels > 0,
            rate > 0,
            0 <= gain <= ONE,
            voices@.len() == VOICES,
            osc@.len() == VOICES,
            all_wf(osc@),
            osc@ == voices_after(table@, os0, voices@, rate as int, f as nat),
            out@.len() == out0.len(),
            forall|j: int|
                0 <= j < f * channels ==> #[trigger] out@[j] == frame_out(
                    table@,
                    voices_after(table@, os0, voices@, rate as int, (j / channels as int + 1) as nat),
                    gain as int,
                ),
            forall|j: int| frames * channels <= j < out0.len() ==> #[trigger] out@[j] == out0[j],
        decreases frames - f,
    {
        let s: i32 = render_frame(table, gain, voices, rate, osc);
        assert(osc@ == voices_after(table@, os0, voices@, rate as int, (f + 1) as nat));
        let mut ch: usize = 0;
        while ch < channels
            invariant
                0 <= f < frames,
                0 <= ch <= channels,
                frames * channels <= out0.len(),
                out0.len() <= usize::MAX,
                out@.len() == out0.len(),
                s == frame_out(
                    table@,
                    voices_after(table@, os0, voices@, rate as int, (f + 1) as nat),
                    gain as int,
                ),
                forall|j: int|
                    0 <= j < f * channels + ch ==> #[trigger] out@[j] == frame_out(
                        table@,
                        voices_after(table@, os0, voices@, rate as int, (j / channels as int + 1) as nat),
                        gain as int,
                    ),
                forall|j: int| frames * channels <= j < out0.len() ==> #[trigger] out@[j] == out0[j],
            decreases channels - ch,
        {
            proof {
                lemma_frame_index(f as int, ch as int, channels as int, frames as int);
            }
            let idx: usize = f * channels + ch;
            out.set(idx, s);
            ch = ch + 1;
        }
        proof {
            assert(f * channels + channels == (f + 1) * channels) by (nonlinear_arith);
        }
        f = f + 1;
    }
    proof {
        assert forall|j: int| 0 <= j < frames * channels implies -ONE < #[trigger] out@[j] < ONE by {
            lemma_frame_out_range(
                table@,
                voices_after(table@, os0, voices@, rate as int, (j / channels as int + 1) as nat),
                gain as int,
            );
        }
    }
}

/// Every output sample lies strictly within (-1, 1).
pub proof fn lemma_frame_out_range(t: Seq<i32>, os: Seq<Oscillator>, gain: int)
    ensures
        -ONE < frame_out(t, os, gain) < ONE,
{
    lemma_limiter_range(scale(normalize(mix(t, os), count_active(os)), gain, ONE as int));
}


/// With an empty table every frame is silent and no oscillator moves, whatever
/// the voices, the gain or the number of frames.
pub proof fn lemma_empty_table_silent(
    t: Seq<i32>,
    os: Seq<Oscillator>,
    cs: Seq<VoiceControl>,
    rate: int,
    gain: int,
    n: nat,
)
    requires
        t.len() == 0,
    ensures
        voices_after(t, os, cs, rate, n) == os,
        frame_out(t, voices_after(t, os, cs, rate, n), gain) == 0,
    decreases n,
{
    if n > 0 {
        lemma_empty_table_silent(t, os, cs, rate, gain, (n - 1) as nat);
    }
}

proof fn lemma_count_inactive(os: Seq<Oscillator>)
    requires
        forall|i: int| 0 <= i < os.len() ==> !is_active(#[trigger] os[i]),
    ensures
        count_active(os) == 0,
    decreases os.len(),
{
    if os.len() > 0 {
        let front = os.drop_last();
        assert forall|i: int| 0 <= i < front.len() implies !is_active(#[trigger] front[i]) by {
            assert(front[i] == os[i]);
        }
        lemma_count_inactive(front);
    }
}

/// A frame in which every voice lies below the silence threshold is silent.
pub proof fn lemma_no_active_silent(t: Seq<i32>, os: Seq<Oscillator>, gain: int)
    requires
        0 <= gain <= ONE,
        forall|i: int| 0 <= i < os.len() ==> !is_active(#[trigger] os[i]),
    ensures
        frame_out(t, os, gain) == 0,
{
    lemma_count_inactive(os);
}

/// For `k` voices that all add the same value `c`, the normalized sum has a
/// square of at most `k * c^2`: it grows as `sqrt(k)`, not as `k`.
pub proof fn lemma_power_bound(k: int, c: int)
    requires
        1 <= k <= VOICES,
    ensures
        normalize(k * c, k) * normalize(k * c, k) <= k * c * c,
{
    lemma_norm_is_inverse_root(k);
    let n = norm_q16(k);
    let a = abs(c);
    let m = abs(k * c);
    assert(m == k * a) by (nonlinear_arith)
        requires
            k >= 1,
            a == abs(c),
            m == abs(k * c),
    ;
    assert(m * n >= 0) by (nonlinear_arith)
        requires
            m >= 0,
            n >= 0,
    ;
    let q = m * n / (ONE as int);
    vstd::arithmetic::div_mod::lemma_fundamental_div_mod(m * n, ONE as int);
    vstd::arithmetic::div_mod::lemma_mod_pos_bound(m * n, ONE as int);
    vstd::arithmetic::div_mod::lemma_div_pos_is_pos(m * n, ONE as int);
    assert(q * ONE <= m * n);
    assert(q * ONE * (q * ONE) <= (m * n) * (m * n)) by (nonlinear_arith)
        requires
            0 <= q * ONE <= m * n,
    ;
    assert((m * n) * (m * n) == (k * a * a) * (k * n * n)) by (nonlinear_arith)
        requires
            m == k * a,
    ;
    assert((k * a * a) * (k * n * n) <= (k * a * a) * (ONE * ONE)) by (nonlinear_arith)
        requires
            k * n * n <= ONE * ONE,
            k >= 1,
    ;
    assert(q * q <= k * a * a) by (nonlinear_arith)
        requires
            q * ONE * (q * ONE) <= (k * a * a) * (ONE * ONE),
            ONE > 0,
    ;
    assert(k * a * a == k * c * c) by (nonlinear_arith)
        requires
            a == abs(c),
    ;
    assert(normalize(k * c, k) == q || normalize(k * c, k) == -q);
    assert(normalize(k * c, k) * normalize(k * c, k) == q * q) by (nonlinear_arith)
        requires
            normalize(k * c, k) == q || normalize(k * c, k) == -q,
    ;
}

proof fn lemma_voices_after_len(
    t: Seq<i32>,
    os: Seq<Oscillator>,
    cs: Seq<VoiceControl>,
    rate: int,
    n: nat,
)
    ensures
        voices_after(t, os, cs, rate, n).len() == os.len(),
    decreases n,
{
    if n > 0 {
        lemma_voices_after_len(t, os, cs, rate, (n - 1) as nat);
    }
}

/// Each voice's envelope after `n` frames is its own filter run `n` times
/// under its gate, whatever the other voices do.
pub proof fn lemma_voice_envelope(
    t: Seq<i32>,
    os: Seq<Oscillator>,
    cs: Seq<VoiceControl>,
    rate: int,
    n: nat,
    i: int,
)
    requires
        t.len() > 0,
        os.len() == cs.len(),
        all_wf(os),
        0 <= i < os.len(),
    ensures
        voices_after(t, os, cs, rate, n).len() == os.len(),
        voices_after(t, os, cs, rate, n)[i].amp == amp_after(os[i].amp as int, cs[i].gate, n),
    decreases n,
{
    assert(os[i].wf());
    lemma_voices_after_len(t, os, cs, rate, n);
    if n > 0 {
        let m = (n - 1) as nat;
        lemma_voice_envelope(t, os, cs, rate, m, i);
        lemma_amp_after_range(os[i].amp as int, cs[i].gate, m);
        lemma_smooth_step(amp_after(os[i].amp as int, cs[i].gate, m), cs[i].gate);
        lemma_amp_after_last(os[i].amp as int, cs[i].gate, m);
    }
}

/// Once every gate is off, the output is exactly zero from `RELEASE_FRAMES`
/// frames on, whatever the oscillators held.
pub proof fn lemma_release_silences(
    t: Seq<i32>,
    os: Seq<Oscillator>,
    cs: Seq<VoiceControl>,
    rate: int,
    gain: int,
    n: nat,
)
    requires
        0 <= gain <= ONE,
        os.len() == cs.len(),
        all_wf(os),
        forall|i: int| 0 <= i < cs.len() ==> !(#[trigger] cs[i]).gate,
        n >= RELEASE_FRAMES,
    ensures
        frame_out(t, voices_after(t, os, cs, rate, n), gain) == 0,
{
    if t.len() > 0 {
        let after = voices_after(t, os, cs, rate, n);
        lemma_voices_after_len(t, os, cs, rate, n);
        assert forall|i: int| 0 <= i < after.len() implies !is_active(#[trigger] after[i]) by {
            lemma_voice_envelope(t, os, cs, rate, n, i);
            assert(os[i].wf());
            assert(!cs[i].gate);
            lemma_release_silent(os[i].amp as int, n);
        }
        lemma_no_active_silent(t, after, gain);
    }
}

/// After `RELEASE_FRAMES` frames under fixed controls, exactly the voices
/// whose gate is on are sounding, each within the silence threshold of full
/// scale; every other voice lies below the threshold.
pub proof fn lemma_chord_settles(
    t: Seq<i32>,
    os: Seq<Oscillator>,
    cs: Seq<VoiceControl>,
    rate: int,
    n: nat,
)
    requires
        t.len() > 0,
        os.len() == cs.len(),
        all_wf(os),
        n >= RELEASE_FRAMES,
    ensures
        voices_after(t, os, cs, rate, n).len() == os.len(),
        forall|i: int|
            0 <= i < os.len() ==> (is_active(#[trigger] voices_after(t, os, cs, rate, n)[i])
                <==> cs[i].gate),
        forall|i: int|
            0 <= i < os.len() && cs[i].gate ==> #[trigger] voices_after(t, os, cs, rate, n)[i].amp
                > AMP_ONE - SILENT_AMP,
{
    lemma_voices_after_len(t, os, cs, rate, n);
    assert forall|i: int| 0 <= i < os.len() implies (is_active(
        #[trigger] voices_after(t, os, cs, rate, n)[i],
    ) <==> cs[i].gate) && (cs[i].gate ==> voices_after(t, os, cs, rate, n)[i].amp > AMP_ONE
        - SILENT_AMP) by {
        lemma_voice_envelope(t, os, cs, rate, n, i);
        assert(os[i].wf());
        if cs[i].gate {
            crate::voice::lemma_attack_settles(os[i].amp as int, n);
        } else {
            lemma_release_silent(os[i].amp as int, n);
        }
    }
}

proof fn lemma_interp_range(t: Seq<i32>, phase: int)
    requires
        t.len() > 0,
        0 <= phase < PHASE_ONE,
        forall|i: int| 0 <= i < t.len() ==> #[trigger] in_unit_range(t[i] as int),
    ensures
        -ONE <= interp(t, phase) <= ONE,
{
    let len = t.len() as int;
    let p = PHASE_ONE as int;
    let pos = phase * len;
    assert(0 <= pos < p * len) by (nonlinear_arith)
        requires
            0 <= phase < p,
            len > 0,
            pos == phase * len,
    ;
    let i0 = pos / p;
    let frac = pos % p;
    vstd::arithmetic::div_mod::lemma_fundamental_div_mod(pos, p);
    vstd::arithmetic::div_mod::lemma_mod_pos_bound(pos, p);
    vstd::arithmetic::div_mod::lemma_div_pos_is_pos(pos, p);
    assert(i0 < len) by (nonlinear_arith)
        requires
            pos == p * i0 + frac,
            frac >= 0,
            pos < p * len,
            p > 0,
    ;
    let i1 = (i0 + 1) % len;
    vstd::arithmetic::div_mod::lemma_mod_pos_bound(i0 + 1, len);
    assert(in_unit_range(t[i0] as int));
    assert(in_unit_range(t[i1] as int));
    let u0 = t[i0] + ONE;
    let u1 = t[i1] + ONE;
    let num = u0 * (p - frac) + u1 * frac;
    assert(0 <= num <= 2 * ONE * p) by (nonlinear_arith)
        requires
            0 <= u0 <= 2 * ONE,
            0 <= u1 <= 2 * ONE,
            0 <= frac < p,
            num == u0 * (p - frac) + u1 * frac,
    ;
    vstd::arithmetic::div_mod::lemma_div_is_ordered(num, 2 * ONE * p, p);
    vstd::arithmetic::div_mod::lemma_div_by_multiple(2 * ONE as int, p);
    vstd::arithmetic::div_mod::lemma_div_pos_is_pos(num, p);
}

proof fn lemma_mix_bound(t: Seq<i32>, os: Seq<Oscillator>)
    requires
        t.len() > 0,
        all_wf(os),
        forall|i: int| 0 <= i < t.len() ==> #[trigger] in_unit_range(t[i] as int),
    ensures
        abs(mix(t, os)) <= count_active(os) * ONE,
        0 <= count_active(os) <= os.len(),
    decreases os.len(),
{
    if os.len() > 0 {
        let front = os.drop_last();
        assert forall|i: int| 0 <= i < front.len() implies #[trigger] front[i].wf() by {
            assert(front[i] == os[i]);
        }
        lemma_mix_bound(t, front);
        let o = os.last();
        assert(o.wf());
        if is_active(o) {
            lemma_interp_range(t, o.phase as int);
            crate::fixed::lemma_scale_bound(interp(t, o.phase as int), o.amp as int, AMP_ONE as int);
        }
    }
}

/// The normalized sum of `k` voices, each at most full scale, is at most
/// `sqrt(k)` times full scale, and so never more than four times it.
proof fn lemma_normalize_bound(sum: int, k: int)
    requires
        0 <= k <= VOICES,
        abs(sum) <= k * ONE,
    ensures
        abs(normalize(sum, k)) <= 4 * ONE,
{
    if k > 0 {
        lemma_norm_is_inverse_root(k);
        let n = norm_q16(k);
        crate::fixed::lemma_div_le(abs(sum), n, ONE as int);
        let q = abs(sum) * n / (ONE as int);
        vstd::arithmetic::div_mod::lemma_fundamental_div_mod(abs(sum) * n, ONE as int);
        vstd::arithmetic::div_mod::lemma_mod_pos_bound(abs(sum) * n, ONE as int);
        assert(abs(sum) * n >= 0) by (nonlinear_arith)
            requires
                abs(sum) >= 0,
                n >= 0,
        ;
        assert(q * ONE <= k * ONE * n) by (nonlinear_arith)
            requires
                q * ONE <= abs(sum) * n,
                abs(sum) <= k * ONE,
                n >= 0,
        ;
        assert(q <= k * n) by (nonlinear_arith)
            requires
                q * ONE <= k * ONE * n,
        ;
        assert(q <= 4 * ONE) by (nonlinear_arith)
            requires
                0 <= q <= k * n,
                k * n * n <= ONE * ONE,
                1 <= k <= 16,
                n > 0,
        {
            assert((k * n) * (k * n) <= 16 * (ONE * ONE)) by (nonlinear_arith)
                requires
                    k * n * n <= ONE * ONE,
                    1 <= k <= 16,
            ;
            if k * n > 4 * ONE {
                assert((k * n) * (k * n) > (4 * ONE) * (4 * ONE)) by (nonlinear_arith)
                    requires
                        k * n > 4 * ONE,
                ;
            }
        }
    }
}

/// With every table sample in [-1, 1], no output sample's magnitude exceeds
/// the limiter's value at four times the gain: at most 0.8 at full gain,
/// however many voices sound.
pub proof fn lemma_loudness_bound(t: Seq<i32>, os: Seq<Oscillator>, gain: int)
    requires
        0 <= gain <= ONE,
        os.len() <= VOICES,
        all_wf(os),
        forall|i: int| 0 <= i < t.len() ==> #[trigger] in_unit_range(t[i] as int),
    ensures
        abs(frame_out(t, os, gain)) <= limit(4 * gain),
        limit(4 * gain) <= limit(4 * ONE),
        limit(4 * ONE) == 52428,
{
    crate::fixed::lemma_limiter_monotone(4 * gain, 4 * ONE as int);
    lemma_limiter_range(4 * gain);
    assert(limit(4 * ONE) == 17179869184int / 327680int);
    vstd::arithmetic::div_mod::lemma_fundamental_div_mod_converse(
        17179869184int,
        327680int,
        52428int,
        262144int,
    );
    if t.len() > 0 {
        lemma_mix_bound(t, os);
        let k = count_active(os);
        let v = normalize(mix(t, os), k);
        lemma_normalize_bound(mix(t, os), k);
        let w = scale(v, gain, ONE as int);
        crate::fixed::lemma_scale_bound(v, gain, ONE as int);
        assert(abs(w) <= 4 * gain) by (nonlinear_arith)
            requires
                abs(v) <= 4 * ONE,
                0 <= gain <= ONE,
                w == scale(v, gain, ONE as int),
                abs(w) == abs(v) * gain / (ONE as int),
        {
            assert(abs(v) * gain <= 4 * gain * ONE) by (nonlinear_arith)
                requires
                    abs(v) <= 4 * ONE,
                    0 <= gain,
            ;
            vstd::arithmetic::div_mod::lemma_div_is_ordered(abs(v) * gain, 4 * gain * ONE, ONE as int);
            vstd::arithmetic::div_mod::lemma_div_by_multiple(4 * gain, ONE as int);
        }
        crate::fixed::lemma_limiter_monotone(w, 4 * gain);
        crate::fixed::lemma_limiter_monotone(-4 * gain, w);
        crate::fixed::lemma_limiter_odd(4 * gain);
    }
}

} // verus!
