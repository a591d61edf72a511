use wavesynth::control::SynthState;
use wavesynth::fixed::{
    clamp_gain, encode_i16, encode_u16, floor_freq, norm_factor, scale_by, soft_clip, AMP_ONE,
    DEFAULT_GAIN, MIN_FREQ, ONE, PHASE_ONE, SILENT_AMP, VOICES,
};
use wavesynth::render::{render_block, render_frame};
use wavesynth::shared::{AudioVoices, SharedParams};
use wavesynth::voice::{
    advance_phase, phase_increment, smooth_amp, Oscillator, VoiceControl, RELEASE_FRAMES,
};
use wavesynth::wavetable::Wavetable;

fn sine_table(n: usize) -> Wavetable {
    let mut v = Vec::new();
    for i in 0..n {
        let t = i as f64 / n as f64;
        v.push(((2.0 * std::f64::consts::PI * t).sin() * ONE as f64) as i32);
    }
    Wavetable::from_samples(v)
}

fn fresh_oscillators() -> Vec<Oscillator> {
    (0..VOICES).map(|_| Oscillator::new()).collect()
}

#[test]
fn gain_is_clamped() {
    let mut s = SynthState::new();
    assert_eq!(s.gain, DEFAULT_GAIN);
    s.set_master_gain(-5);
    assert_eq!(s.gain, 0);
    s.set_master_gain(2 * ONE);
    assert_eq!(s.gain, ONE);
    s.set_master_gain(30000);
    assert_eq!(s.gain, 30000);
    assert_eq!(clamp_gain(ONE + 1), ONE);
}

#[test]
fn wavetable_samples_are_clamped() {
    let t = Wavetable::from_samples(vec![-100000, 0, 70000, 1234, -ONE]);
    assert_eq!(t.len(), 5);
    assert_eq!(t.get(0), -ONE);
    assert_eq!(t.get(1), 0);
    assert_eq!(t.get(2), ONE);
    assert_eq!(t.get(3), 1234);
    assert_eq!(t.get(4), -ONE);
    assert!(Wavetable::from_samples(Vec::new()).is_empty());
}

#[test]
fn chord_longer_than_voices_is_truncated() {
    let mut s = SynthState::new();
    let freqs: Vec<u32> = (0..20).map(|i| 100_000 + i * 1000).collect();
    s.set_chord(&freqs);
    assert_eq!(s.voices.len(), VOICES);
    for i in 0..VOICES {
        assert!(s.voices[i].gate);
        assert_eq!(s.voices[i].freq, freqs[i]);
    }
}

#[test]
fn chord_shorter_than_voices_gates_rest_off() {
    let mut s = SynthState::new();
    let many: Vec<u32> = vec![200_000; 10];
    s.set_chord(&many);
    s.set_chord(&vec![440_000, 500, 0]);
    assert_eq!(s.voices[0], VoiceControl { freq: 440_000, gate: true });
    assert_eq!(s.voices[1], VoiceControl { freq: MIN_FREQ, gate: true });
    assert_eq!(s.voices[2], VoiceControl { freq: MIN_FREQ, gate: true });
    for i in 3..VOICES {
        assert!(!s.voices[i].gate);
    }
    assert_eq!(floor_freq(999), MIN_FREQ);
    assert_eq!(floor_freq(1001), 1001);
}

#[test]
fn all_notes_off_is_idempotent() {
    let mut s = SynthState::new();
    s.set_chord(&vec![440_000, 550_000]);
    s.all_notes_off();
    let once = s.voices.clone();
    s.all_notes_off();
    assert_eq!(s.voices, once);
    assert!(s.voices.iter().all(|v| !v.gate));
    assert_eq!(s.voices[0].freq, 440_000);
}

#[test]
fn limiter_values() {
    assert_eq!(soft_clip(0), 0);
    assert_eq!(soft_clip(ONE as i64), 32768);
    assert_eq!(soft_clip(-(ONE as i64)), -32768);
    assert_eq!(soft_clip(100), 99);
    let big = soft_clip(1 << 40);
    assert!(big < ONE && big > ONE - 2);
    assert!(soft_clip(-(1 << 40)) > -ONE);
    assert_eq!(soft_clip(i64::MAX), ONE - 1);
    assert_eq!(soft_clip(i64::MIN), -(ONE - 1));
    assert_eq!(soft_clip(-12345), -soft_clip(12345));
    assert!(soft_clip(1 << 20) <= soft_clip(1 << 21));
}

#[test]
fn normalization_factors() {
    assert_eq!(norm_factor(1), 65536);
    assert_eq!(norm_factor(3), 37837);
    assert_eq!(norm_factor(4), 32768);
    assert_eq!(norm_factor(16), 16384);
    assert_eq!(scale_by(-7, 1, 2), -3);
    assert_eq!(scale_by(7, 1, 2), 3);
}

#[test]
fn integer_encoders() {
    assert_eq!(encode_i16(ONE), 32767);
    assert_eq!(encode_i16(-ONE), -32767);
    assert_eq!(encode_i16(0), 0);
    assert_eq!(encode_i16(4 * ONE), 32767);
    assert_eq!(encode_i16(-4 * ONE), -32768);
    assert_eq!(encode_u16(0), 32767);
    assert_eq!(encode_u16(ONE), 65535);
    assert_eq!(encode_u16(-ONE), 0);
    assert_eq!(encode_u16(-4 * ONE), 0);
}

#[test]
fn interpolation_between_samples() {
    let t = Wavetable::from_samples(vec![0, ONE, 0, -ONE]);
    assert_eq!(t.sample_at(0), 0);
    assert_eq!(t.sample_at(PHASE_ONE / 8), 32768);
    assert_eq!(t.sample_at(PHASE_ONE / 4), ONE);
    assert_eq!(t.sample_at(PHASE_ONE * 7 / 8), -32768);
}

#[test]
fn envelope_and_phase_steps() {
    assert_eq!(smooth_amp(0, true), 1_073_741);
    assert_eq!(smooth_amp(500, false), 499);
    assert_eq!(smooth_amp(AMP_ONE, true), AMP_ONE);
    assert_eq!(smooth_amp(AMP_ONE - 10, true), AMP_ONE - 9);
    assert_eq!(phase_increment(440_000, 48_000), 39_370_533);
    assert_eq!(advance_phase(PHASE_ONE - 1, 2), 1);
}

#[test]
fn empty_table_renders_silence() {
    let t = Wavetable::from_samples(Vec::new());
    let mut s = SynthState::new();
    s.set_chord(&vec![440_000, 660_000]);
    let mut osc = fresh_oscillators();
    osc[0].amp = AMP_ONE;
    let before = osc.clone();
    for _ in 0..100 {
        assert_eq!(render_frame(&t, ONE, &s.voices, 48_000, &mut osc), 0);
    }
    assert_eq!(osc, before);
}

#[test]
fn no_active_voice_renders_silence() {
    let t = sine_table(2048);
    let s = SynthState::new();
    let mut osc = fresh_oscillators();
    osc[3].amp = SILENT_AMP;
    for _ in 0..10 {
        assert_eq!(render_frame(&t, ONE, &s.voices, 48_000, &mut osc), 0);
    }
    assert!(osc.iter().all(|o| o.amp < SILENT_AMP));
}

#[test]
fn identical_voices_are_power_normalized() {
    let t = Wavetable::from_samples(vec![ONE / 2; 8]);
    let mut s = SynthState::new();
    s.set_chord(&vec![440_000; 4]);
    let mut osc = fresh_oscillators();
    for i in 0..4 {
        osc[i].amp = AMP_ONE;
    }
    // four voices of 1/2 each: a sum of 2, normalized to 1, limited to 1/2
    assert_eq!(render_frame(&t, ONE, &s.voices, 48_000, &mut osc), 32768);
}

#[test]
fn block_duplicates_frames_across_channels() {
    let t = sine_table(64);
    let mut s = SynthState::new();
    s.set_chord(&vec![1_000_000]);
    let mut osc = fresh_oscillators();
    osc[0].amp = AMP_ONE;
    let mut out = vec![7; 7];
    render_block(&t, ONE, &s.voices, 8_000, 3, &mut osc, &mut out);
    assert_eq!(out[0], out[1]);
    assert_eq!(out[1], out[2]);
    assert_eq!(out[3], out[4]);
    assert_eq!(out[4], out[5]);
    assert_ne!(out[0], out[3]);
    assert_eq!(out[6], 7);
}

#[test]
fn chord_scenario_settles_and_releases() {
    let t = sine_table(2048);
    let rate: u32 = 48_000;
    let mut s = SynthState::new();
    s.set_master_gain(ONE);
    s.set_chord(&vec![440_000, 554_370, 659_250]);
    let mut osc = fresh_oscillators();
    for _ in 0..20_000 {
        render_frame(&t, s.gain, &s.voices, rate, &mut osc);
    }
    for i in 0..3 {
        assert!(osc[i].amp > AMP_ONE - AMP_ONE / 1000);
    }
    for i in 3..VOICES {
        assert_eq!(osc[i].amp, 0);
    }
    // one more frame, recomputed by hand from its parts
    let prev = osc.clone();
    let got = render_frame(&t, s.gain, &s.voices, rate, &mut osc);
    let mut sum: i64 = 0;
    for i in 0..3 {
        let inc = phase_increment(s.voices[i].freq, rate);
        assert_eq!(osc[i].phase, advance_phase(prev[i].phase, inc));
        let amp = smooth_amp(prev[i].amp, true);
        assert_eq!(osc[i].amp, amp);
        sum += scale_by(t.sample_at(osc[i].phase) as i64, amp as u64, AMP_ONE as u64);
    }
    let normalized = scale_by(sum, norm_factor(3) as u64, ONE as u64);
    let gained = scale_by(normalized, s.gain as u64, ONE as u64);
    assert_eq!(got, soft_clip(gained));
    // the three tones are heard
    let mut peak: i32 = 0;
    for _ in 0..2_000 {
        let v = render_frame(&t, s.gain, &s.voices, rate, &mut osc);
        assert!(v > -ONE && v < ONE);
        peak = peak.max(v.abs());
    }
    assert!(peak > ONE / 4);
    // release
    s.all_notes_off();
    for _ in 0..20_000 {
        render_frame(&t, s.gain, &s.voices, rate, &mut osc);
    }
    assert!(osc.iter().all(|o| o.amp < SILENT_AMP));
    for _ in 0..100 {
        assert_eq!(render_frame(&t, s.gain, &s.voices, rate, &mut osc), 0);
    }
}

#[test]
fn shared_params_render_what_was_published() {
    let mut s = SynthState::new();
    s.set_master_gain(ONE / 2);
    s.set_chord(&vec![440_000, 660_000]);
    let shared = SharedParams::new(sine_table(256), &s);
    let mut voices = AudioVoices::new();
    assert!(voices.is_ready());
    let mut out = vec![0; 2 * 500];
    voices.render(&shared, 48_000, 2, &mut out);

    let t = sine_table(256);
    let mut osc = fresh_oscillators();
    let mut expected = vec![0; 2 * 500];
    render_block(&t, s.gain, &s.voices, 48_000, 2, &mut osc, &mut expected);
    assert_eq!(out, expected);
    assert!(out.iter().any(|v| *v != 0));
}

#[test]
fn shared_params_publish_updates() {
    let s = SynthState::new();
    let shared = SharedParams::new(sine_table(256), &s);
    assert_eq!(shared.load_gain(), DEFAULT_GAIN);
    let mut s2 = SynthState::new();
    s2.set_master_gain(2 * ONE);
    s2.set_chord(&vec![100]);
    shared.publish(&s2);
    assert_eq!(shared.load_gain(), ONE);
    let mut snap = vec![VoiceControl { freq: 0, gate: false }; VOICES];
    shared.load_voices(&mut snap);
    assert_eq!(snap, s2.voices);
    assert_eq!(snap[0], VoiceControl { freq: MIN_FREQ, gate: true });

    shared.set_wavetable(vec![5 * ONE, -5 * ONE, 7]);
    let t = shared.load_table();
    assert_eq!(t.len(), 3);
    assert_eq!(t.get(0), ONE);
    assert_eq!(t.get(1), -ONE);
    assert_eq!(t.get(2), 7);

    shared.set_wavetable(Vec::new());
    let mut voices = AudioVoices::new();
    let mut out = vec![9; 8];
    voices.render(&shared, 48_000, 1, &mut out);
    assert_eq!(out, vec![0; 8]);
}

#[test]
fn release_and_attack_settle_within_release_frames() {
    let t = sine_table(2048);
    let mut s = SynthState::new();
    s.set_chord(&vec![440_000, 554_370, 659_250]);
    let mut osc = fresh_oscillators();
    for _ in 0..RELEASE_FRAMES {
        render_frame(&t, s.gain, &s.voices, 48_000, &mut osc);
    }
    for i in 0..3 {
        assert!(osc[i].amp > AMP_ONE - SILENT_AMP);
    }
    s.all_notes_off();
    for _ in 0..RELEASE_FRAMES {
        render_frame(&t, s.gain, &s.voices, 48_000, &mut osc);
    }
    assert!(osc.iter().all(|o| o.amp < SILENT_AMP));
    assert_eq!(render_frame(&t, s.gain, &s.voices, 48_000, &mut osc), 0);
}

#[test]
fn sixteen_full_voices_reach_the_loudness_bound() {
    let t = Wavetable::from_samples(vec![ONE; 4]);
    let mut s = SynthState::new();
    s.set_chord(&vec![440_000; VOICES]);
    let mut osc = fresh_oscillators();
    for o in osc.iter_mut() {
        o.amp = AMP_ONE;
    }
    // sixteen voices at 1.0 sum to 16, normalize to 4, limit to 0.8
    assert_eq!(render_frame(&t, ONE, &s.voices, 48_000, &mut osc), 52428);
}
