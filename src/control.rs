use vstd::prelude::*;

use crate::fixed::{clamp, clamp_gain, floor_freq, DEFAULT_GAIN, MIN_FREQ, ONE, VOICES};
use crate::voice::VoiceControl;
use crate::wavetable::{clamped_samples, in_unit_range};

verus! {

/// A frequency raised to the lowest playable one.
pub open spec fn floored(f: u32) -> u32 {
    if f < MIN_FREQ {
        MIN_FREQ
    } else {
        f
    }
}

/// The voices after a chord: voice `i` below the chord's length takes its
/// `i`-th frequency, floored, and sounds; every other voice keeps its
/// frequency and is gated off.
pub open spec fn chord_voices(old: Seq<VoiceControl>, freqs: Seq<u32>) -> Seq<VoiceControl> {
    Seq::new(
        old.len(),
        |i: int|
            if i < freqs.len() {
                VoiceControl { freq: floored(freqs[i]), gate: true }
            } else {
                VoiceControl { freq: old[i].freq, gate: false }
            },
    )
}

/// Every voice gated off, frequencies kept.
pub open spec fn notes_off(v: Seq<VoiceControl>) -> Seq<VoiceControl> {
    v.map_values(|c: VoiceControl| VoiceControl { freq: c.freq, gate: false })
}

/// The parameters the control side sets: the master gain (Q16) and one
/// frequency and gate per voice.
pub struct SynthState {
    pub gain: i32,
    pub voices: Vec<VoiceControl>,
}

impl SynthState {
    pub open spec fn wf(&self) -> bool {
        &&& self.voices@.len() == VOICES
        &&& 0 <= self.gain <= ONE
    }

    /// The starting parameters: the default gain, every voice silent at 0 Hz.
    pub fn new() -> (r: SynthState)
        ensures
            r.wf(),
            r.gain == DEFAULT_GAIN,
            forall|i: int|
                0 <= i < VOICES ==> #[trigger] r.voices@[i] == (VoiceControl { freq: 0, gate: false }),
    {
        let mut voices: Vec<VoiceControl> = Vec::new();
        let mut i: usize = 0;
        while i < VOICES
            invariant
                0 <= i <= VOICES,
                voices@.len() == i,
                forall|j: int| 0 <= j < i ==> #[trigger] voices@[j] == (VoiceControl { freq: 0, gate: false }),
            decreases VOICES - i,
        {
            voices.push(VoiceControl { freq: 0, gate: false });
            i = i + 1;
        }
        SynthState { gain: DEFAULT_GAIN, voices }
    }

    /// Sets the master gain, clamped to [0, 1].
    pub fn set_master_gain(&mut self, gain: i32)
        requires
            old(self).wf(),
        ensures
            final(self).wf(),
            final(self).gain == clamp(gain as int, 0, ONE as int),
            final(self).voices@ == old(self).voices@,
    {
        self.gain = clamp_gain(gain);
    }

    /// Sounds a chord: the first frequencies go to the first voices, at most
    /// one per voice, each floored to the lowest playable frequency; all other
    /// voices are gated off.
    pub fn set_chord(&mut self, freqs: &Vec<u32>)
        requires
            old(self).wf(),
        ensures
            final(self).wf(),
            final(self).gain == old(self).gain,
            final(self).voices@ == chord_voices(old(self).voices@, freqs@),
    {
        let k: usize = if freqs.len() < VOICES {
            freqs.len()
        } else {
            VOICES
        };
        let ghost v0 = self.voices@;
        let mut i: usize = 0;
        while i < VOICES
            invariant
                0 <= i <= VOICES,
                k <= VOICES,
                k == freqs@.len() || (k == VOICES && freqs@.len() >= VOICES),
                self.voices@.len() == VOICES,
                v0.len() == VOICES,
                0 <= self.gain <= ONE,
                self.gain == old(self).gain,
                v0 == old(self).voices@,
                forall|j: int| 0 <= j < i ==> #[trigger] self.voices@[j] == chord_voices(v0, freqs@)[j],
                forall|j: int| i <= j < VOICES ==> #[trigger] self.voices@[j] == v0[j],
            decreases VOICES - i,
        {
            let c: VoiceControl = if i < k {
                VoiceControl { freq: floor_freq(freqs[i]), gate: true }
            } else {
                VoiceControl { freq: self.voices[i].freq, gate: false }
            };
            self.voices.set(i, c);
            i = i + 1;
        }
        assert(self.voices@ =~= chord_voices(v0, freqs@));
    }

    /// Gates every voice off; each envelope then decays toward silence.
    pub fn all_notes_off(&mut self)
        requires
            old(self).wf(),
        ensures
            final(self).wf(),
            final(self).gain == old(self).gain,
            final(self).voices@ == notes_off(old(self).voices@),
    {
        let ghost v0 = self.voices@;
        let mut i: usize = 0;
        while i < self.voices.len()
            invariant
                0 <= i <= self.voices@.len(),
                self.voices@.len() == v0.len(),
                v0.len() == VOICES,
                0 <= self.gain <= ONE,
                self.gain == old(self).gain,
                v0 == old(self).voices@,
                forall|j: int| 0 <= j < i ==> #[trigger] self.voices@[j] == notes_off(v0)[j],
                forall|j: int| i <= j < self.voices@.len() ==> #[trigger] self.voices@[j] == v0[j],
            decreases self.voices@.len() - i,
        {
            let c: VoiceControl = VoiceControl { freq: self.voices[i].freq, gate: false };
            self.voices.set(i, c);
            i = i + 1;
        }
        assert(self.voices@ =~= notes_off(v0));
    }
}

/// Gating every voice off a second time changes nothing.
pub proof fn lemma_notes_off_idempotent(v: Seq<VoiceControl>)
    ensures
        notes_off(notes_off(v)) == notes_off(v),
{
    assert(notes_off(notes_off(v)) =~= notes_off(v));
}

/// A chord sounds exactly its first frequencies, one voice each and floored,
/// up to the number of voices, and gates every other voice off.
pub proof fn lemma_chord_truncation(old: Seq<VoiceControl>, freqs: Seq<u32>)
    requires
        old.len() == VOICES,
    ensures
        forall|i: int|
            0 <= i < VOICES ==> (#[trigger] chord_voices(old, freqs)[i]).gate == (i < freqs.len()),
        forall|i: int|
            0 <= i < VOICES && i < freqs.len() ==> (#[trigger] chord_voices(old, freqs)[i]).freq
                == floored(freqs[i]) && floored(freqs[i]) >= MIN_FREQ,
{
}

/// A table made from any samples holds only samples in [-1, 1], and clamps
/// none that already were.
pub proof fn lemma_clamped_in_range(s: Seq<i32>)
    ensures
        clamped_samples(s).len() == s.len(),
        forall|i: int|
            0 <= i < s.len() ==> #[trigger] in_unit_range(clamped_samples(s)[i] as int),
        forall|i: int|
            0 <= i < s.len() && in_unit_range(s[i] as int) ==> #[trigger] clamped_samples(s)[i] == s[i],
{
}

} // verus!
