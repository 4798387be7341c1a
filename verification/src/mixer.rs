//! The mixer: several voices summed into one signal.

use crate::fixed::GAIN_ONE;
use crate::handle::ParameterHandle;
use crate::synth::{
    carried,
    frame_spec,
    next_state,
    plan_spec,
    scaled,
    silence,
    EngineSynthesizer,
};
use std::sync::atomic::AtomicU32;
use vstd::prelude::*;

verus! {

/// The most voices that a mixer holds.
pub const MAX_VOICES: usize = 0x8000;

/// The two handles through which another thread drives one voice.
pub struct VoiceControl {
    /// The speed asked of the voice.
    pub rpm: ParameterHandle,
    /// The gain of the voice, as a fraction of `GAIN_ONE`.
    pub gain: ParameterHandle,
}

impl VoiceControl {
    /// Asks the voice for speed `rpm`.
    pub fn set_rpm(&self, rpm: u32) {
        self.rpm.set(rpm);
    }

    /// Sets the gain of the voice; above `GAIN_ONE` it counts as `GAIN_ONE`.
    pub fn set_gain(&self, gain: u32) {
        self.gain.set(gain);
    }
}

/// One voice in the mixer, with the speed and gain that were latched for
/// the buffer in hand.
pub struct Voice {
    synth: EngineSynthesizer,
    gain: ParameterHandle,
    latched_rpm: u32,
    latched_gain: u32,
}

impl Voice {
    /// The voice itself.
    pub closed spec fn synth(&self) -> EngineSynthesizer {
        self.synth
    }

    /// The cell from which the voice's gain is latched.
    pub closed spec fn gain_cell(&self) -> AtomicU32 {
        self.gain.cell()
    }

    /// The speed latched for the buffer in hand.
    pub closed spec fn target(&self) -> u32 {
        self.latched_rpm
    }

    /// The gain latched for the buffer in hand.
    pub closed spec fn level(&self) -> u32 {
        self.latched_gain
    }
}

/// Frame `k` of the sum of the first `count` voices over a buffer of
/// `frames` frames heard at `rate`: each voice's own frame under its
/// latched gain.
pub open spec fn mixed_frame(voices: Seq<Voice>, rate: u32, frames: int, k: int, count: int) -> int
    decreases count,
{
    if count <= 0 {
        0
    } else {
        let v = voices[count - 1];
        let lib = v.synth().library();
        let p = plan_spec(
            lib.loops(),
            lib.time_constant(),
            v.synth().state().current_rpm,
            v.target(),
            rate,
            frames,
        );
        mixed_frame(voices, rate, frames, k, count - 1) + scaled(
            v.level() as int,
            frame_spec(lib.loops(), p, carried(lib.loops(), v.synth().state(), p), k),
        )
    }
}

/// Voice `after` is voice `before` one buffer of `frames` frames, heard
/// at `rate`, on: the same library, the same latched values, the state
/// that follows.
pub open spec fn voice_stepped(before: Voice, after: Voice, rate: u32, frames: int) -> bool {
    let lib = before.synth().library();
    let p = plan_spec(
        lib.loops(),
        lib.time_constant(),
        before.synth().state().current_rpm,
        before.target(),
        rate,
        frames,
    );
    &&& after.synth().library() == lib
    &&& after.target() == before.target()
    &&& after.level() == before.level()
    &&& after.synth().state() == next_state(
        lib.loops(),
        p,
        carried(lib.loops(), before.synth().state(), p),
        frames,
    )
}

/// The voices of `a` and of `b` are the same, whatever was latched for
/// them.
pub open spec fn same_voices(a: Seq<Voice>, b: Seq<Voice>) -> bool {
    &&& a.len() == b.len()
    &&& forall|i: int| 0 <= i < a.len() ==> (#[trigger] a[i]).synth() == b[i].synth()
}

/// `out` is the buffer that the voices `latched` mix when heard at
/// `rate`, and `after` is what they are when they have played it.
pub open spec fn buffer_mixed(
    latched: Seq<Voice>,
    after: Seq<Voice>,
    rate: u32,
    out: Seq<i64>,
) -> bool {
    &&& after.len() == latched.len()
    &&& forall|i: int|
        0 <= i < latched.len() ==> voice_stepped(
            latched[i],
            #[trigger] after[i],
            rate,
            out.len() as int,
        )
    &&& forall|k: int|
        0 <= k < out.len() ==> #[trigger] out[k] == mixed_frame(
            latched,
            rate,
            out.len() as int,
            k,
            latched.len() as int,
        )
}

/// A fixed number of places for voices, summed sample by sample. Nothing
/// limits the sum: with every voice at full gain it exceeds one voice's
/// range.
pub struct Mixer {
    voices: Vec<Voice>,
    places: usize,
}

impl Mixer {
    /// What holds of every mixer: it holds no more voices than it has
    /// places, and no latched gain exceeds `GAIN_ONE`.
    pub closed spec fn wf(&self) -> bool {
        &&& self.voices@.len() <= self.places <= MAX_VOICES
        &&& forall|i: int| 0 <= i < self.voices@.len() ==> (#[trigger] self.voices@[i]).latched_gain <= GAIN_ONE
    }

    /// The voices, in the order in which they were added.
    pub closed spec fn voices(&self) -> Seq<Voice> {
        self.voices@
    }

    /// The number of places.
    pub closed spec fn capacity(&self) -> usize {
        self.places
    }

    /// A mixer with `places` places, and `MAX_VOICES` at most.
    pub fn new(places: usize) -> (m: Mixer)
        ensures
            m.wf(),
            m.voices().len() == 0,
            m.capacity() == if places <= MAX_VOICES {
                places
            } else {
                MAX_VOICES
            },
    {
        let places = if places <= MAX_VOICES {
            places
        } else {
            MAX_VOICES
        };
        Mixer { voices: Vec::with_capacity(places), places }
    }

    /// The number of voices.
    pub fn voice_count(&self) -> (n: usize)
        ensures
            n == self.voices().len(),
            self.wf() ==> n <= self.capacity(),
    {
        self.voices.len()
    }

    /// Adds a voice at full gain, if a place is free, and hands out its
    /// controls.
    pub fn play(&mut self, synth: EngineSynthesizer) -> (control: Option<VoiceControl>)
        requires
            old(self).wf(),
        ensures
            final(self).wf(),
            final(self).capacity() == old(self).capacity(),
            control is Some <==> old(self).voices().len() < old(self).capacity(),
            control is None ==> final(self).voices() == old(self).voices(),
            control is Some ==> {
                &&& final(self).voices().len() == old(self).voices().len() + 1
                &&& final(self).voices().drop_last() == old(self).voices()
                &&& final(self).voices().last().synth() == synth
                &&& final(self).voices().last().target() == synth.state().current_rpm
                &&& final(self).voices().last().level() == GAIN_ONE
                &&& control matches Some(c) && c.rpm.cell() == synth.speed_cell() && c.gain.cell()
                    == final(self).voices().last().gain_cell()
            },
    {
        if self.voices.len() >= self.places {
            return None;
        }
        let rpm = synth.rpm_control();
        let latched_rpm = synth.current_rpm();
        let gain = ParameterHandle::new(GAIN_ONE);
        let shared = gain.share();
        let ghost before = self.voices@;
        self.voices.push(Voice { synth, gain, latched_rpm, latched_gain: GAIN_ONE });
        proof {
            assert(self.voices@.drop_last() =~= before);
        }
        Some(VoiceControl { rpm, gain: shared })
    }

    /// Latches, for every voice, the speed and the gain most recently
    /// asked for; a gain above `GAIN_ONE` is latched as `GAIN_ONE`.
    ///
    /// The controls may be written from another thread at any moment, so
    /// nothing is stated of the values read. Whatever they were, each was
    /// latched as `latch_voice` latches it: the voices and their cells are
    /// the same, and no latched gain exceeds `GAIN_ONE`.
    pub fn latch(&mut self)
        requires
            old(self).wf(),
        ensures
            final(self).wf(),
            final(self).capacity() == old(self).capacity(),
            same_voices(old(self).voices(), final(self).voices()),
            forall|i: int|
                0 <= i < final(self).voices().len() ==> {
                    &&& (#[trigger] final(self).voices()[i]).level() <= GAIN_ONE
                    &&& final(self).voices()[i].gain_cell() == old(self).voices()[i].gain_cell()
                },
    {
        let count = self.voices.len();
        let ghost before = self.voices@;
        let mut v: usize = 0;
        while v < count
            invariant
                v <= count,
                self.wf(),
                count == self.voices@.len(),
                count == before.len(),
                self.places == old(self).places,
                forall|i: int|
                    0 <= i < count ==> (#[trigger] self.voices@[i]).synth == before[i].synth
                        && self.voices@[i].gain.cell() == before[i].gain.cell(),
            decreases count - v,
        {
            let rpm = self.voices[v].synth.requested_rpm();
            let asked = self.voices[v].gain.get_latest();
            self.latch_voice(v, rpm, asked);
            v += 1;
        }
    }

    /// Latches speed `rpm` and gain `asked` for the voice at `index`; a
    /// gain above `GAIN_ONE` is latched as `GAIN_ONE`. Where there is no such voice
    /// nothing changes.
    pub fn latch_voice(&mut self, index: usize, rpm: u32, asked: u32)
        requires
            old(self).wf(),
        ensures
            final(self).wf(),
            final(self).capacity() == old(self).capacity(),
            final(self).voices().len() == old(self).voices().len(),
            forall|i: int|
                0 <= i < old(self).voices().len() && i != index
                    ==> #[trigger] final(self).voices()[i] == old(self).voices()[i],
            index < old(self).voices().len() ==> {
                let before = old(self).voices()[index as int];
                let after = final(self).voices()[index as int];
                &&& after.synth() == before.synth()
                &&& after.gain_cell() == before.gain_cell()
                &&& after.target() == rpm
                &&& after.level() == if asked > GAIN_ONE {
                    GAIN_ONE
                } else {
                    asked
                }
            },
    {
        if index < self.voices.len() {
            let gain = if asked > GAIN_ONE {
                GAIN_ONE
            } else {
                asked
            };
            self.voices[index].latched_rpm = rpm;
            self.voices[index].latched_gain = gain;
        }
    }

    /// Renders one buffer, heard at `rate`, from the latched speeds and
    /// gains: silence, and each voice's buffer added to it under the
    /// voice's gain.
    pub fn render_latched(&mut self, rate: u32, out: &mut Vec<i64>)
        requires
            old(self).wf(),
        ensures
            final(self).wf(),
            final(self).capacity() == old(self).capacity(),
            final(out)@.len() == old(out)@.len(),
            buffer_mixed(old(self).voices(), final(self).voices(), rate, final(out)@),
    {
        silence(out);
        let n = out.len();
        let count = self.voices.len();
        let ghost before = self.voices@;
        let mut v: usize = 0;
        while v < count
            invariant
                v <= count,
                count == self.voices@.len(),
                count == before.len(),
                self.places == old(self).places,
                count <= self.places <= MAX_VOICES,
                n == out@.len(),
                forall|i: int| v <= i < count ==> #[trigger] self.voices@[i] == before[i],
                forall|i: int|
                    0 <= i < v ==> voice_stepped(
                        before[i],
                        #[trigger] self.voices@[i],
                        rate,
                        n as int,
                    ),
                forall|i: int| 0 <= i < count ==> (#[trigger] self.voices@[i]).latched_gain <= GAIN_ONE,
                forall|k: int|
                    0 <= k < n ==> #[trigger] out@[k] == mixed_frame(
                        before,
                        rate,
                        n as int,
                        k,
                        v as int,
                    ),
                forall|k: int|
                    0 <= k < n ==> -v * 0x1_0000_0000 <= #[trigger] out@[k] <= v * 0x1_0000_0000,
            decreases count - v,
        {
            let target = self.voices[v].latched_rpm;
            let gain = self.voices[v].latched_gain;
            let ghost base = out@;
            let ghost held = self.voices@;
            self.voices[v].synth.add_toward(target, rate, gain, out);
            proof {
                assert(held[v as int] == before[v as int]);
                assert forall|k: int| 0 <= k < n implies #[trigger] out@[k] == mixed_frame(
                    before,
                    rate,
                    n as int,
                    k,
                    v + 1,
                ) by {
                    assert(base[k] == mixed_frame(before, rate, n as int, k, v as int));
                }
                assert forall|k: int| 0 <= k < n implies -(v + 1) * 0x1_0000_0000
                    <= #[trigger] out@[k] <= (v + 1) * 0x1_0000_0000 by {
                    assert(-v * 0x1_0000_0000 <= base[k] <= v * 0x1_0000_0000);
                    assert(-0x1_0000_0000 <= out@[k] - base[k] <= 0x1_0000_0000);
                }
            }
            v += 1;
        }
    }

    /// Renders one buffer, heard at `rate`, from the speeds and gains most
    /// recently asked for.
    ///
    /// The controls are read once, at the start; whatever they held, the
    /// buffer is the one that `render_latched` gives for them.
    pub fn render(&mut self, rate: u32, out: &mut Vec<i64>)
        requires
            old(self).wf(),
        ensures
            final(self).wf(),
            final(self).capacity() == old(self).capacity(),
            final(out)@.len() == old(out)@.len(),
            exists|latched: Seq<Voice>|
                same_voices(
                    old(self).voices(),
                    latched,
                ) && #[trigger] buffer_mixed(latched, final(self).voices(), rate, final(out)@),
    {
        self.latch();
        let ghost latched = self.voices@;
        self.render_latched(rate, out);
        proof {
            assert(buffer_mixed(latched, self.voices(), rate, out@));
        }
    }
}

} // verus!
