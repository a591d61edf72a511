use vstd::prelude::*;

use std::sync::atomic::{AtomicBool, AtomicI32, AtomicU32, Ordering};
use std::sync::Arc;

use arc_swap::ArcSwap;

use crate::control::SynthState;
use crate::fixed::{clamp_gain, AMP_ONE, ONE, PHASE_ONE, VOICES};
use crate::voice::VoiceControl;
use crate::render::{all_wf, render_block, rendered_from};
use crate::voice::Oscillator;
use crate::wavetable::Wavetable;

verus! {

/// The published table: an `ArcSwap` of arc_swap, whose default strategy
/// lies in a private module of that crate and cannot be declared to Verus, so
/// it is held here, out of Verus's sight.
#[verifier::external_body]
pub struct TableSlot {
    slot: ArcSwap<Wavetable>,
}

impl TableSlot {
    /// Relies on `ArcSwap::from_pointee`: a slot that holds `t`.
    #[verifier::external_body]
    fn new(t: Wavetable) -> TableSlot {
        TableSlot { slot: ArcSwap::from_pointee(t) }
    }

    /// Relies on `ArcSwap::load_full`: a handle on one complete table that
    /// some thread stored. Which one depends on the other threads, so nothing
    /// more is stated; every table keeps its own invariant.
    #[verifier::external_body]
    fn load(&self) -> Arc<Wavetable> {
        self.slot.load_full()
    }

    /// Relies on `ArcSwap::store`: replaces the table by one pointer exchange.
    #[verifier::external_body]
    fn store(&self, t: Wavetable) {
        self.slot.store(Arc::new(t))
    }
}

/// The parameters shared between the control thread and the audio thread:
/// the table behind an atomically swapped handle, and the gain and each
/// voice's frequency and gate in atomics of their own. The control thread is
/// the only writer; readers never block.
pub struct SharedParams {
    table: TableSlot,
    gain: AtomicI32,
    freqs: Vec<AtomicU32>,
    gates: Vec<AtomicBool>,
}

impl SharedParams {
    #[verifier::type_invariant]
    spec fn inv(&self) -> bool {
        self.freqs@.len() == VOICES && self.gates@.len() == VOICES
    }

    /// Shared parameters that start from a table and a parameter set.
    pub fn new(table: Wavetable, state: &SynthState) -> (r: SharedParams)
        requires
            state.wf(),
    {
        let mut freqs: Vec<AtomicU32> = Vec::new();
        let mut gates: Vec<AtomicBool> = Vec::new();
        let mut i: usize = 0;
        while i < VOICES
            invariant
                0 <= i <= VOICES,
                state.wf(),
                freqs@.len() == i,
                gates@.len() == i,
            decreases VOICES - i,
        {
            freqs.push(AtomicU32::new(state.voices[i].freq));
            gates.push(AtomicBool::new(state.voices[i].gate));
            i = i + 1;
        }
        SharedParams { table: TableSlot::new(table), gain: AtomicI32::new(state.gain), freqs, gates }
    }

    /// Publishes a new table made of the given samples, each clamped to
    /// [-1, 1] (see `Wavetable::from_samples`).
    pub fn set_wavetable(&self, samples: Vec<i32>) {
        let t = Wavetable::from_samples(samples);
        self.table.store(t);
    }

    /// Publishes the gain and every voice's frequency and gate of a
    /// parameter set, each field by one atomic store.
    pub fn publish(&self, state: &SynthState)
        requires
            state.wf(),
    {
        proof {
            use_type_invariant(self);
        }
        self.gain.store(state.gain, Ordering::Relaxed);
        let mut i: usize = 0;
        while i < VOICES
            invariant
                0 <= i <= VOICES,
                state.wf(),
                self.freqs@.len() == VOICES,
                self.gates@.len() == VOICES,
            decreases VOICES - i,
        {
            self.freqs[i].store(state.voices[i].freq, Ordering::Relaxed);
            self.gates[i].store(state.voices[i].gate, Ordering::Relaxed);
            i = i + 1;
        }
    }

    /// The table the audio thread renders from.
    pub fn load_table(&self) -> Arc<Wavetable> {
        self.table.load()
    }

    /// The master gain, within [0, 1] whatever was stored.
    pub fn load_gain(&self) -> (r: i32)
        ensures
            0 <= r <= ONE,
    {
        clamp_gain(self.gain.load(Ordering::Relaxed))
    }

    /// Reads every voice's frequency and gate into `into`, one atomic load
    /// per field.
    pub fn load_voices(&self, into: &mut Vec<VoiceControl>)
        requires
            old(into)@.len() == VOICES,
        ensures
            final(into)@.len() == VOICES,
    {
        proof {
            use_type_invariant(self);
        }
        let mut i: usize = 0;
        while i < VOICES
            invariant
                0 <= i <= VOICES,
                into@.len() == VOICES,
                self.freqs@.len() == VOICES,
                self.gates@.len() == VOICES,
            decreases VOICES - i,
        {
            let c = VoiceControl {
                freq: self.freqs[i].load(Ordering::Relaxed),
                gate: self.gates[i].load(Ordering::Relaxed),
            };
            into.set(i, c);
            i = i + 1;
        }
    }
}


/// The audio thread's own state: one oscillator per voice, and room for a
/// snapshot of the voices' controls, so that rendering never allocates.
pub struct AudioVoices {
    osc: Vec<Oscillator>,
    controls: Vec<VoiceControl>,
}

impl AudioVoices {
    /// The oscillators, one per voice.
    pub closed spec fn oscillators(&self) -> Seq<Oscillator> {
        self.osc@
    }

    /// The last snapshot of the voices' controls.
    pub closed spec fn controls(&self) -> Seq<VoiceControl> {
        self.controls@
    }

    pub open spec fn wf(&self) -> bool {
        &&& self.oscillators().len() == VOICES
        &&& all_wf(self.oscillators())
        &&& self.controls().len() == VOICES
    }

    /// Every voice silent at the start of its cycle, with its gate off at 0 Hz.
    pub fn new() -> (r: AudioVoices)
        ensures
            r.wf(),
            forall|i: int|
                0 <= i < VOICES ==> #[trigger] r.oscillators()[i] == (Oscillator { phase: 0, amp: 0 }),
            forall|i: int|
                0 <= i < VOICES ==> #[trigger] r.controls()[i] == (VoiceControl { freq: 0, gate: false }),
    {
        let mut osc: Vec<Oscillator> = Vec::new();
        let mut controls: Vec<VoiceControl> = Vec::new();
        let mut i: usize = 0;
        while i < VOICES
            invariant
                0 <= i <= VOICES,
                osc@.len() == i,
                controls@.len() == i,
                all_wf(osc@),
                forall|j: int| 0 <= j < i ==> #[trigger] osc@[j] == (Oscillator { phase: 0, amp: 0 }),
                forall|j: int|
                    0 <= j < i ==> #[trigger] controls@[j] == (VoiceControl { freq: 0, gate: false }),
            decreases VOICES - i,
        {
            osc.push(Oscillator::new());
            controls.push(VoiceControl { freq: 0, gate: false });
            i = i + 1;
        }
        AudioVoices { osc, controls }
    }

    /// Whether every voice is in order: one oscillator and one control per
    /// voice, each phase within a cycle and each envelope within full scale.
    pub fn is_ready(&self) -> (r: bool)
        ensures
            r == self.wf(),
    {
        if self.osc.len() != VOICES || self.controls.len() != VOICES {
            return false;
        }
        let mut i: usize = 0;
        while i < VOICES
            invariant
                0 <= i <= VOICES,
                self.osc@.len() == VOICES,
                forall|j: int| 0 <= j < i ==> #[trigger] self.osc@[j].wf(),
            decreases VOICES - i,
        {
            let o = self.osc[i];
            if o.phase >= PHASE_ONE || o.amp > AMP_ONE {
                assert(!self.osc@[i as int].wf());
                return false;
            }
            i = i + 1;
        }
        true
    }

    /// Renders as many whole frames as `out` holds for `channels` channels
    /// from the parameters currently published. Which table, gain and
    /// controls it reads depends on the control thread; whatever they are,
    /// the oscillators and the samples written are exactly those that
    /// `render_block` gives for them, every sample written lies strictly
    /// within (-1, 1), and samples past the last whole frame are left as they
    /// were.
    pub fn render(&mut self, shared: &SharedParams, rate: u32, channels: usize, out: &mut Vec<i32>)
        requires
            old(self).wf(),
            rate > 0,
            channels > 0,
        ensures
            final(self).wf(),
            exists|t: Seq<i32>, g: int, cs: Seq<VoiceControl>|
                #[trigger] rendered_from(
                    t,
                    g,
                    cs,
                    rate as int,
                    channels as int,
                    old(self).oscillators(),
                    final(self).oscillators(),
                    old(out)@,
                    final(out)@,
                ),
            final(out)@.len() == old(out)@.len(),
            forall|j: int|
                0 <= j < ((old(out)@.len() as int) / (channels as int)) * channels ==> -ONE
                    < #[trigger] final(out)@[j] < ONE,
            forall|j: int|
                ((old(out)@.len() as int) / (channels as int)) * channels <= j < old(out)@.len()
                    ==> #[trigger] final(out)@[j] == old(out)@[j],
    {
        let table = shared.load_table();
        let gain = shared.load_gain();
        shared.load_voices(&mut self.controls);
        let ghost os0 = self.oscillators();
        let ghost out0 = out@;
        render_block(&*table, gain, self.controls.as_slice(), rate, channels, &mut self.osc, out);
        assert(rendered_from(
            (*table)@,
            gain as int,
            self.controls@,
            rate as int,
            channels as int,
            os0,
            self.oscillators(),
            out0,
            out@,
        ));
    }
}

} // verus!
