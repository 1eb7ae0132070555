//! Voices: the nodes that sound the notes of a track.

use crate::delay::{lemma_reverb_sounds, DelayReverb, SimpleDelayNode};
use crate::gain::{lemma_gain_sounds, GainNode};
use crate::kick::{lemma_kick_sounds, Kick};
use crate::node::{after, sounds_for, Signal, SoundNode, Waveform, RENDER_SAMPLE_RATE};
use crate::oscillator::{lemma_oscillator_sounds, PlayedWaveform};
use crate::pitch::MidiKey;
use crate::track::InstrumentName;
use vstd::prelude::*;

verus! {

/// Upper bound on the number of samples for which a voice can outlast the
/// beat on which it started.
pub const VOICE_TAIL: usize = 52_920;

/// The node that sounds one note.
///
/// A sawtooth note is an oscillator under a gain; a sine or square note has
/// a reverb between the two; a kick is the percussive impulse under a gain.
#[derive(Debug, PartialEq, Eq)]
pub enum Voice {
    Plain(GainNode<PlayedWaveform>),
    Reverberated(GainNode<DelayReverb<PlayedWaveform>>),
    Percussive(GainNode<Kick>),
}

impl SoundNode for Voice {
    open spec fn well_formed(&self) -> bool {
        match self {
            Voice::Plain(node) => node.well_formed(),
            Voice::Reverberated(node) => node.well_formed(),
            Voice::Percussive(node) => node.well_formed(),
        }
    }

    open spec fn finished(&self) -> bool {
        match self {
            Voice::Plain(node) => node.finished(),
            Voice::Reverberated(node) => node.finished(),
            Voice::Percussive(node) => node.finished(),
        }
    }

    open spec fn signal(&self) -> Option<Signal> {
        match self {
            Voice::Plain(node) => node.signal(),
            Voice::Reverberated(node) => node.signal(),
            Voice::Percussive(node) => node.signal(),
        }
    }

    open spec fn advanced(&self) -> Self {
        match self {
            Voice::Plain(node) => Voice::Plain(node.advanced()),
            Voice::Reverberated(node) => Voice::Reverberated(node.advanced()),
            Voice::Percussive(node) => Voice::Percussive(node.advanced()),
        }
    }

    open spec fn life(&self) -> nat {
        match self {
            Voice::Plain(node) => node.life(),
            Voice::Reverberated(node) => node.life(),
            Voice::Percussive(node) => node.life(),
        }
    }

    fn next_sample(&mut self) -> (signal: Option<Signal>) {
        match self {
            Voice::Plain(node) => node.next_sample(),
            Voice::Reverberated(node) => node.next_sample(),
            Voice::Percussive(node) => node.next_sample(),
        }
    }

    fn ended(&self) -> (ended: bool) {
        match self {
            Voice::Plain(node) => node.ended(),
            Voice::Reverberated(node) => node.ended(),
            Voice::Percussive(node) => node.ended(),
        }
    }

    proof fn lemma_pull(&self) {
        match self {
            Voice::Plain(node) => node.lemma_pull(),
            Voice::Reverberated(node) => node.lemma_pull(),
            Voice::Percussive(node) => node.lemma_pull(),
        }
    }
}

/// A delay line of the reverb, new, around `node`.
pub open spec fn new_delay<T: SoundNode>(node: T, sample_delay: usize) -> SimpleDelayNode<T> {
    SimpleDelayNode { node, sample_delay, position: 0, filled: false, remaining_samples: 0 }
}

/// The oscillator of a note that lasts one beat.
pub open spec fn note_oscillator(
    waveform: Waveform,
    key: MidiKey,
    samples_per_beat: usize,
) -> PlayedWaveform {
    PlayedWaveform {
        waveform,
        frequency: key.spec_frequency_bits(),
        current_sample: 0,
        sample_count: samples_per_beat,
    }
}

/// The reverb of a note: delays of 4410, 8820 and 13230 samples in a row.
pub open spec fn note_reverb(node: PlayedWaveform) -> DelayReverb<PlayedWaveform> {
    DelayReverb { node: new_delay(new_delay(new_delay(node, 4410), 8820), 13230) }
}

/// The voice that sounds `key` on the given instrument.
pub open spec fn voice_for(
    name: InstrumentName,
    gain: u32,
    key: MidiKey,
    samples_per_beat: usize,
) -> Voice {
    match name {
        InstrumentName::Sawtooth => Voice::Plain(
            GainNode { node: note_oscillator(Waveform::Sawtooth, key, samples_per_beat), value: gain },
        ),
        InstrumentName::Sine => Voice::Reverberated(
            GainNode {
                node: note_reverb(note_oscillator(Waveform::Sine, key, samples_per_beat)),
                value: gain,
            },
        ),
        InstrumentName::Square => Voice::Reverberated(
            GainNode {
                node: note_reverb(note_oscillator(Waveform::Square, key, samples_per_beat)),
                value: gain,
            },
        ),
        InstrumentName::Kick => Voice::Percussive(
            GainNode { node: Kick { sample_rate: RENDER_SAMPLE_RATE, current_sample: 0 }, value: gain },
        ),
    }
}

/// A new voice is well formed, has not ended, and ends within a beat and
/// the tail of the reverb.
pub proof fn lemma_voice_for(name: InstrumentName, gain: u32, key: MidiKey, samples_per_beat: usize)
    requires
        samples_per_beat > 0,
    ensures
        voice_for(name, gain, key, samples_per_beat).well_formed(),
        !voice_for(name, gain, key, samples_per_beat).finished(),
        voice_for(name, gain, key, samples_per_beat).life() <= samples_per_beat + VOICE_TAIL,
{
}

/// Samples that the reverb of a note rings on for after its input: the
/// slots of its three lines together.
pub const REVERB_TAIL: usize = 26_460;

/// Number of samples for which a note sounds: a beat for a sawtooth note, a
/// beat and the tail of the reverb for a sine or square note, and one
/// second for a kick, whatever the beat.
pub open spec fn note_length(name: InstrumentName, samples_per_beat: usize) -> nat {
    match name {
        InstrumentName::Sawtooth => samples_per_beat as nat,
        InstrumentName::Sine => (samples_per_beat + REVERB_TAIL) as nat,
        InstrumentName::Square => (samples_per_beat + REVERB_TAIL) as nat,
        InstrumentName::Kick => RENDER_SAMPLE_RATE as nat,
    }
}

/// A voice goes where the node inside it goes.
pub proof fn lemma_voice_follows(voice: Voice, ticks: nat)
    ensures
        after(voice, ticks) == match voice {
            Voice::Plain(node) => Voice::Plain(after(node, ticks)),
            Voice::Reverberated(node) => Voice::Reverberated(after(node, ticks)),
            Voice::Percussive(node) => Voice::Percussive(after(node, ticks)),
        },
    decreases ticks,
{
    if ticks > 0 {
        lemma_voice_follows(voice, (ticks - 1) as nat);
    }
}

/// A new voice yields a sample on every pull for the length of its note,
/// and has ended after that: a beat for a sawtooth note, a beat and the
/// tail of the reverb for a sine or square note, one second for a kick. For
/// a sine or square note this asks for a beat that is no shorter than the
/// first line of the reverb.
pub proof fn lemma_voice_sounds(
    name: InstrumentName,
    gain: u32,
    key: MidiKey,
    samples_per_beat: usize,
)
    requires
        samples_per_beat > 0,
        name == InstrumentName::Sine || name == InstrumentName::Square ==> samples_per_beat
            >= 4410,
    ensures
        sounds_for(
            voice_for(name, gain, key, samples_per_beat),
            note_length(name, samples_per_beat),
        ),
{
    let voice = voice_for(name, gain, key, samples_per_beat);
    let count = note_length(name, samples_per_beat);
    lemma_voice_for(name, gain, key, samples_per_beat);
    match voice {
        Voice::Plain(node) => {
            lemma_oscillator_sounds(node.node);
            lemma_gain_sounds(node, count);
            assert forall|k: nat| k <= count implies after(voice, k) == Voice::Plain(
                after(node, k),
            ) by {
                lemma_voice_follows(voice, k);
            }
        },
        Voice::Reverberated(node) => {
            lemma_oscillator_sounds(node.node.node.node.node.node);
            lemma_reverb_sounds(node.node, samples_per_beat as nat);
            lemma_gain_sounds(node, count);
            assert forall|k: nat| k <= count implies after(voice, k) == Voice::Reverberated(
                after(node, k),
            ) by {
                lemma_voice_follows(voice, k);
            }
        },
        Voice::Percussive(node) => {
            lemma_kick_sounds(node.node);
            lemma_gain_sounds(node, count);
            assert forall|k: nat| k <= count implies after(voice, k) == Voice::Percussive(
                after(node, k),
            ) by {
                lemma_voice_follows(voice, k);
            }
        },
    }
}

impl Voice {
    /// Builds the voice that sounds `key` on the given instrument, for a
    /// beat of `samples_per_beat` samples.
    pub fn new(name: InstrumentName, gain: u32, key: MidiKey, samples_per_beat: usize) -> (voice:
        Voice)
        requires
            samples_per_beat > 0,
        ensures
            voice == voice_for(name, gain, key, samples_per_beat),
    {
        match name {
            InstrumentName::Sawtooth => Voice::Plain(
                GainNode::new(
                    PlayedWaveform::new(
                        Waveform::Sawtooth,
                        key.frequency_bits(),
                        samples_per_beat,
                    ),
                    gain,
                ),
            ),
            InstrumentName::Sine => Voice::Reverberated(
                GainNode::new(
                    DelayReverb::new(
                        PlayedWaveform::new(Waveform::Sine, key.frequency_bits(), samples_per_beat),
                        RENDER_SAMPLE_RATE,
                    ),
                    gain,
                ),
            ),
            InstrumentName::Square => Voice::Reverberated(
                GainNode::new(
                    DelayReverb::new(
                        PlayedWaveform::new(
                            Waveform::Square,
                            key.frequency_bits(),
                            samples_per_beat,
                        ),
                        RENDER_SAMPLE_RATE,
                    ),
                    gain,
                ),
            ),
            InstrumentName::Kick => Voice::Percussive(
                GainNode::new(Kick::new(RENDER_SAMPLE_RATE), gain),
            ),
        }
    }
}

/// A voice that sounds, with what tells it apart from every other voice of
/// the box: the sample on which it started, and its place among the voices
/// that started on that sample.
#[derive(Debug, PartialEq, Eq)]
pub struct PlayingVoice {
    pub started: usize,
    pub ordinal: usize,
    pub node: Voice,
}

/// What one voice contributes to one sample.
#[derive(Debug, PartialEq, Eq)]
pub struct VoiceSignal {
    pub started: usize,
    pub ordinal: usize,
    pub signal: Signal,
}

/// New voices that start on sample `started`, each with its place.
pub open spec fn numbered(voices: Seq<Voice>, started: usize) -> Seq<PlayingVoice> {
    Seq::new(
        voices.len(),
        |place: int| PlayingVoice { started, ordinal: place as usize, node: voices[place] },
    )
}

/// The voices that have not ended, in their order.
pub open spec fn sounding(voices: Seq<PlayingVoice>) -> Seq<PlayingVoice>
    decreases voices.len(),
{
    if voices.len() == 0 {
        Seq::empty()
    } else {
        let before = sounding(voices.drop_last());
        if voices.last().node.finished() {
            before
        } else {
            before.push(voices.last())
        }
    }
}

/// What the voices yield on one pull each: the signals of those that yield
/// one, in the order of the voices.
pub open spec fn signals_of(voices: Seq<PlayingVoice>) -> Seq<VoiceSignal>
    decreases voices.len(),
{
    if voices.len() == 0 {
        Seq::empty()
    } else {
        let before = signals_of(voices.drop_last());
        let last = voices.last();
        match last.node.signal() {
            Some(signal) => before.push(
                VoiceSignal { started: last.started, ordinal: last.ordinal, signal },
            ),
            None => before,
        }
    }
}

/// The voices after one pull each.
pub open spec fn pulled(voices: Seq<PlayingVoice>) -> Seq<PlayingVoice> {
    voices.map_values(
        |voice: PlayingVoice|
            PlayingVoice {
                started: voice.started,
                ordinal: voice.ordinal,
                node: voice.node.advanced(),
            },
    )
}

/// No two of the voices have the same start and the same place.
pub open spec fn told_apart(voices: Seq<PlayingVoice>) -> bool {
    forall|a: int, b: int|
        0 <= a < b < voices.len() ==> (#[trigger] voices[a]).started != (
        #[trigger] voices[b]).started || voices[a].ordinal != voices[b].ordinal
}

/// Every voice started before sample `sample`.
pub open spec fn started_before(voices: Seq<PlayingVoice>, sample: int) -> bool {
    forall|k: int| 0 <= k < voices.len() ==> (#[trigger] voices[k]).started < sample
}

/// No two of the signals come from the same voice.
pub open spec fn signals_told_apart(signals: Seq<VoiceSignal>) -> bool {
    forall|a: int, b: int|
        0 <= a < b < signals.len() ==> (#[trigger] signals[a]).started != (
        #[trigger] signals[b]).started || signals[a].ordinal != signals[b].ordinal
}

/// The voices that are kept have not ended, and are among the voices there
/// were.
pub proof fn lemma_sounding(voices: Seq<PlayingVoice>, sample: int)
    requires
        forall|k: int|
            0 <= k < voices.len() ==> {
                &&& (#[trigger] voices[k]).node.well_formed()
                &&& sample + voices[k].node.life() <= usize::MAX
            },
    ensures
        sounding(voices).len() <= voices.len(),
        forall|k: int|
            0 <= k < sounding(voices).len() ==> {
                let voice = #[trigger] sounding(voices)[k];
                &&& !voice.node.finished()
                &&& voice.node.well_formed()
                &&& sample + voice.node.life() <= usize::MAX
            },
    decreases voices.len(),
{
    if voices.len() > 0 {
        lemma_sounding(voices.drop_last(), sample);
        assert(voices.last() == voices[voices.len() - 1]);
    }
}

/// Every voice that is kept is one of the voices there were, so voices that
/// could be told apart still can.
pub proof fn lemma_sounding_told_apart(voices: Seq<PlayingVoice>, sample: int)
    requires
        told_apart(voices),
        started_before(voices, sample),
    ensures
        told_apart(sounding(voices)),
        started_before(sounding(voices), sample),
        forall|k: int|
            0 <= k < sounding(voices).len() ==> voices.contains(#[trigger] sounding(voices)[k]),
    decreases voices.len(),
{
    if voices.len() > 0 {
        let front = voices.drop_last();
        let last = voices.last();
        assert forall|a: int, b: int| 0 <= a < b < front.len() implies (
        #[trigger] front[a]).started != (#[trigger] front[b]).started || front[a].ordinal
            != front[b].ordinal by {
            assert(front[a] == voices[a] && front[b] == voices[b]);
        }
        assert forall|k: int| 0 <= k < front.len() implies (#[trigger] front[k]).started
            < sample by {
            assert(front[k] == voices[k]);
        }
        lemma_sounding_told_apart(front, sample);
        let kept = sounding(front);
        assert forall|k: int| 0 <= k < sounding(voices).len() implies voices.contains(
            #[trigger] sounding(voices)[k],
        ) by {
            if k < kept.len() {
                let at = choose|at: int| 0 <= at < front.len() && front[at] == kept[k];
                assert(voices[at] == kept[k]);
            } else {
                assert(voices[voices.len() - 1] == last);
            }
        }
        if !last.node.finished() {
            assert forall|a: int, b: int| 0 <= a < b < sounding(voices).len() implies (
            #[trigger] sounding(voices)[a]).started != (#[trigger] sounding(voices)[b]).started
                || sounding(voices)[a].ordinal != sounding(voices)[b].ordinal by {
                if b == kept.len() {
                    let at = choose|at: int| 0 <= at < front.len() && front[at] == kept[a];
                    assert(voices[at] == kept[a]);
                    assert(voices[voices.len() - 1] == last);
                }
            }
            assert(voices[voices.len() - 1] == last);
        }
    }
}

/// The signals of voices that can be told apart can be told apart.
pub proof fn lemma_signals_told_apart(voices: Seq<PlayingVoice>)
    requires
        told_apart(voices),
    ensures
        signals_told_apart(signals_of(voices)),
        forall|k: int|
            0 <= k < signals_of(voices).len() ==> exists|at: int|
                0 <= at < voices.len() && voices[at].started == (#[trigger] signals_of(
                    voices,
                )[k]).started && voices[at].ordinal == signals_of(voices)[k].ordinal,
    decreases voices.len(),
{
    if voices.len() > 0 {
        let front = voices.drop_last();
        let last = voices.last();
        assert forall|a: int, b: int| 0 <= a < b < front.len() implies (
        #[trigger] front[a]).started != (#[trigger] front[b]).started || front[a].ordinal
            != front[b].ordinal by {
            assert(front[a] == voices[a] && front[b] == voices[b]);
        }
        lemma_signals_told_apart(front);
        let before = signals_of(front);
        let all = signals_of(voices);
        assert forall|k: int| 0 <= k < all.len() implies exists|at: int|
            0 <= at < voices.len() && voices[at].started == (#[trigger] all[k]).started
                && voices[at].ordinal == all[k].ordinal by {
            if k < before.len() {
                let at = choose|at: int|
                    0 <= at < front.len() && front[at].started == before[k].started
                        && front[at].ordinal == before[k].ordinal;
                assert(voices[at] == front[at]);
            } else {
                assert(voices[voices.len() - 1] == last);
            }
        }
        assert forall|a: int, b: int| 0 <= a < b < all.len() implies (#[trigger] all[a]).started
            != (#[trigger] all[b]).started || all[a].ordinal != all[b].ordinal by {
            if b == before.len() {
                let at = choose|at: int|
                    0 <= at < front.len() && front[at].started == before[a].started
                        && front[at].ordinal == before[a].ordinal;
                assert(voices[at] == front[at]);
                assert(voices[voices.len() - 1] == last);
            }
        }
    }
}

/// Voices that start now, each with its place, can be told apart from one
/// another and from the voices that started before.
pub proof fn lemma_numbered_told_apart(voices: Seq<PlayingVoice>, fresh: Seq<Voice>, started: usize)
    requires
        told_apart(voices),
        started_before(voices, started as int),
        fresh.len() <= usize::MAX,
    ensures
        told_apart(voices + numbered(fresh, started)),
        started_before(voices + numbered(fresh, started), started + 1),
{
    let all = voices + numbered(fresh, started);
    assert forall|a: int, b: int| 0 <= a < b < all.len() implies (#[trigger] all[a]).started != (
    #[trigger] all[b]).started || all[a].ordinal != all[b].ordinal by {
        if b < voices.len() {
            assert(all[a] == voices[a] && all[b] == voices[b]);
        } else if a < voices.len() {
            assert(all[a] == voices[a]);
        }
    }
}

/// Takes the voices that have ended out of the list.
pub(crate) fn retire(voices: &mut Vec<PlayingVoice>)
    requires
        forall|k: int| 0 <= k < old(voices)@.len() ==> (#[trigger] old(voices)@[k]).node.well_formed(),
    ensures
        final(voices)@ == sounding(old(voices)@),
{
    let ghost before = voices@;
    let ghost seen: int = 0;
    let mut kept: usize = 0;
    assert(voices@ =~= sounding(before.take(0)) + before.skip(0));
    while kept < voices.len()
        invariant
            before == old(voices)@,
            forall|k: int| 0 <= k < before.len() ==> (#[trigger] before[k]).node.well_formed(),
            0 <= seen <= before.len(),
            kept == sounding(before.take(seen)).len(),
            voices@ == sounding(before.take(seen)) + before.skip(seen),
        decreases before.len() - seen,
    {
        proof {
            assert(before.take(seen + 1).drop_last() =~= before.take(seen));
            assert(before.take(seen + 1).last() == before[seen]);
            assert(voices@[kept as int] == before.skip(seen)[0]);
        }
        if voices[kept].node.ended() {
            voices.remove(kept);
            proof {
                assert(voices@ =~= sounding(before.take(seen + 1)) + before.skip(seen + 1));
            }
        } else {
            kept += 1;
            proof {
                assert(voices@ =~= sounding(before.take(seen + 1)) + before.skip(seen + 1));
            }
        }
        proof {
            seen = seen + 1;
        }
    }
    proof {
        assert(before.skip(seen).len() == 0);
        assert(before.take(seen) =~= before);
        assert(voices@ =~= sounding(before));
    }
}

} // verus!
