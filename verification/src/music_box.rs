//! The music box: the scheduler that turns a track into a stream of ticks.
//!
//! The box owns the notes that are still to come and the voices that sound.
//! One pull is one sample: on the first sample of a beat the notes of that
//! beat become voices and leave the schedule, voices that have ended are
//! retired, and every voice that is left is pulled once. The stream ends
//! when no note is to come and no voice sounds.

use crate::node::SoundNode;
use crate::performance::{lemma_multiples_fit, new_voices, playable, samples_per_beat_at, voices_of_keys};
use crate::performance::{Performance, SAMPLES_PER_MINUTE};
use crate::track::{due_keys, instruments_view, purge, BeatNotes, Instrument, InstrumentDto, InstrumentPayloadDto};
use crate::voice::{lemma_numbered_told_apart, lemma_signals_told_apart, lemma_sounding_told_apart, numbered};
use crate::voice::{pulled, retire, signals_of, signals_told_apart, started_before, told_apart};
use crate::voice::{PlayingVoice, Voice, VoiceSignal, VOICE_TAIL};
use vstd::prelude::*;

verus! {

/// The scheduler and mixer.
#[derive(Debug, PartialEq)]
pub struct MusicBox {
    pub instruments: Vec<InstrumentDto>,
    pub playing_instruments: Vec<PlayingVoice>,
    pub samples_per_beat: usize,
    pub current_sample: usize,
}

impl View for MusicBox {
    type V = Performance;

    open spec fn view(&self) -> Performance {
        Performance {
            instruments: instruments_view(self.instruments@),
            voices: self.playing_instruments@,
            samples_per_beat: self.samples_per_beat,
            current_sample: self.current_sample,
        }
    }
}

/// Starts the voices of `beat`: one per key that an instrument holds for
/// it, instrument by instrument, each with its place among them.
fn activate(
    instruments: &Vec<InstrumentDto>,
    beat: usize,
    samples_per_beat: usize,
    started: usize,
    voices: &mut Vec<PlayingVoice>,
)
    requires
        samples_per_beat > 0,
    ensures
        final(voices)@ == old(voices)@ + numbered(
            new_voices(instruments_view(instruments@), beat as int, samples_per_beat),
            started,
        ),
{
    let ghost model = instruments_view(instruments@);
    let ghost before = voices@;
    let base = voices.len();
    let mut i: usize = 0;
    assert(model.take(0) =~= Seq::<Instrument>::empty());
    assert(voices@ =~= before + numbered(
        new_voices(model.take(0), beat as int, samples_per_beat),
        started,
    ));
    while i < instruments.len()
        invariant
            i <= instruments.len(),
            samples_per_beat > 0,
            model == instruments_view(instruments@),
            before == old(voices)@,
            base == before.len(),
            voices@ == before + numbered(
                new_voices(model.take(i as int), beat as int, samples_per_beat),
                started,
            ),
        decreases instruments.len() - i,
    {
        let instrument = &instruments[i];
        let ghost done = new_voices(model.take(i as int), beat as int, samples_per_beat);
        let ghost notes = instrument.notes@;
        let mut j: usize = 0;
        assert(notes.take(0) =~= Seq::<BeatNotes>::empty());
        assert(voices@ =~= before + numbered(
            done + voices_of_keys(
                instrument.name,
                instrument.gain,
                due_keys(notes.take(0), beat as int),
                samples_per_beat,
            ),
            started,
        ));
        while j < instrument.notes.len()
            invariant
                j <= instrument.notes.len(),
                samples_per_beat > 0,
                notes == instrument.notes@,
                base == before.len(),
                voices@ == before + numbered(
                    done + voices_of_keys(
                        instrument.name,
                        instrument.gain,
                        due_keys(notes.take(j as int), beat as int),
                        samples_per_beat,
                    ),
                    started,
                ),
            decreases instrument.notes.len() - j,
        {
            let ghost due = due_keys(notes.take(j as int), beat as int);
            proof {
                assert(notes.take(j + 1).drop_last() =~= notes.take(j as int));
                assert(notes.take(j + 1).last() == notes[j as int]);
            }
            if instrument.notes[j].beat == beat {
                let keys = &instrument.notes[j].keys;
                let mut k: usize = 0;
                assert(due + keys@.take(0) =~= due);
                while k < keys.len()
                    invariant
                        k <= keys.len(),
                        samples_per_beat > 0,
                        base == before.len(),
                        voices@ == before + numbered(
                            done + voices_of_keys(
                                instrument.name,
                                instrument.gain,
                                due + keys@.take(k as int),
                                samples_per_beat,
                            ),
                            started,
                        ),
                    decreases keys.len() - k,
                {
                    let ghost sofar = done + voices_of_keys(
                        instrument.name,
                        instrument.gain,
                        due + keys@.take(k as int),
                        samples_per_beat,
                    );
                    let node = Voice::new(
                        instrument.name,
                        instrument.gain,
                        keys[k],
                        samples_per_beat,
                    );
                    let ordinal = voices.len() - base;
                    voices.push(PlayingVoice { started, ordinal, node });
                    proof {
                        let next = done + voices_of_keys(
                            instrument.name,
                            instrument.gain,
                            due + keys@.take(k + 1),
                            samples_per_beat,
                        );
                        assert(next.len() == sofar.len() + 1);
                        assert(ordinal == sofar.len());
                        assert forall|at: int| 0 <= at < sofar.len() implies next[at]
                            == sofar[at] by {
                            if at >= done.len() {
                                let inner = at - done.len();
                                assert((due + keys@.take(k + 1))[inner] == (due + keys@.take(
                                    k as int,
                                ))[inner]);
                            }
                        }
                        assert((due + keys@.take(k + 1))[due.len() + k] == keys@[k as int]);
                        assert(next[sofar.len() as int] == node);
                        assert(voices@ =~= before + numbered(next, started));
                    }
                    k += 1;
                }
                assert(keys@.take(k as int) =~= keys@);
            }
            j += 1;
        }
        proof {
            assert(notes.take(j as int) =~= notes);
            assert(model.take(i + 1).drop_last() =~= model.take(i as int));
            assert(model.take(i + 1).last() == model[i as int]);
            assert(model[i as int] == instrument@);
        }
        i += 1;
    }
    assert(model.take(i as int) =~= model);
}

impl MusicBox {
    /// The state of the box is well formed, and its voices can be told
    /// apart: no two have the same start and place, and all have started.
    pub open spec fn well_formed(&self) -> bool {
        &&& self@.well_formed()
        &&& told_apart(self.playing_instruments@)
        &&& started_before(self.playing_instruments@, self.current_sample as int)
    }

    /// Tells whether a box can be made for the track.
    pub fn is_playable(tempo: usize, instruments: &Vec<InstrumentDto>) -> (fits: bool)
        ensures
            fits == playable(tempo as int, instruments_view(instruments@)),
    {
        if tempo == 0 || tempo > SAMPLES_PER_MINUTE {
            return false;
        }
        let samples_per_beat = SAMPLES_PER_MINUTE / tempo;
        assert(samples_per_beat > 0) by {
            lemma_multiples_fit(1, tempo as int, SAMPLES_PER_MINUTE as int);
        }
        let limit = (usize::MAX - VOICE_TAIL) / samples_per_beat;
        let ghost model = instruments_view(instruments@);
        let mut i: usize = 0;
        while i < instruments.len()
            invariant
                i <= instruments.len(),
                model == instruments_view(instruments@),
                0 < samples_per_beat == samples_per_beat_at(tempo as int),
                limit == (usize::MAX - VOICE_TAIL) / samples_per_beat as int,
                forall|a: int, b: int|
                    0 <= a < i && 0 <= b < model[a].notes.len() ==> ((
                    #[trigger] model[a].notes[b]).beat + 1) * samples_per_beat + VOICE_TAIL
                        <= usize::MAX,
            decreases instruments.len() - i,
        {
            let notes = &instruments[i].notes;
            assert(model[i as int].notes == notes@);
            let mut j: usize = 0;
            while j < notes.len()
                invariant
                    j <= notes.len(),
                    0 <= i < model.len(),
                    model == instruments_view(instruments@),
                    model[i as int].notes == notes@,
                    0 < samples_per_beat == samples_per_beat_at(tempo as int),
                    limit == (usize::MAX - VOICE_TAIL) / samples_per_beat as int,
                    forall|b: int|
                        0 <= b < j ==> ((#[trigger] notes@[b]).beat + 1) * samples_per_beat
                            + VOICE_TAIL <= usize::MAX,
                decreases notes.len() - j,
            {
                proof {
                    lemma_multiples_fit(
                        notes@[j as int].beat + 1,
                        samples_per_beat as int,
                        usize::MAX - VOICE_TAIL,
                    );
                }
                if notes[j].beat >= limit {
                    assert((model[i as int].notes[j as int].beat + 1) * samples_per_beat_at(
                        tempo as int,
                    ) + VOICE_TAIL > usize::MAX);
                    return false;
                }
                j += 1;
            }
            i += 1;
        }
        true
    }

    /// A box for the track, at its first sample. A beat lasts the whole
    /// number of samples that fits into it at `tempo` beats per minute.
    pub fn new(tempo: usize, instruments: Vec<InstrumentDto>) -> (music_box: MusicBox)
        requires
            playable(tempo as int, instruments_view(instruments@)),
        ensures
            music_box.well_formed(),
            music_box@ == (Performance {
                instruments: instruments_view(instruments@),
                voices: Seq::empty(),
                samples_per_beat: samples_per_beat_at(tempo as int) as usize,
                current_sample: 0,
            }),
    {
        let samples_per_beat = SAMPLES_PER_MINUTE / tempo;
        proof {
            lemma_multiples_fit(1, tempo as int, SAMPLES_PER_MINUTE as int);
        }
        let music_box = MusicBox {
            instruments,
            playing_instruments: Vec::new(),
            current_sample: 0,
            samples_per_beat,
        };
        proof {
            let model = music_box@;
            assert(model.voices =~= Seq::<PlayingVoice>::empty());
            assert forall|i: int, j: int|
                0 <= i < model.instruments.len() && 0 <= j
                    < model.instruments[i].notes.len() implies (
            #[trigger] model.instruments[i].notes[j]).beat * model.samples_per_beat
                >= model.current_sample by {
                assert(model.instruments[i].notes[j].beat * model.samples_per_beat >= 0)
                    by (nonlinear_arith)
                    requires
                        model.instruments[i].notes[j].beat >= 0,
                        model.samples_per_beat >= 0,
                ;
            }
        }
        music_box
    }

    /// A box for the track, if one can be made for it.
    pub fn from_payload(payload: InstrumentPayloadDto) -> (music_box: Option<MusicBox>)
        ensures
            music_box.is_some() == playable(
                payload.tempo as int,
                instruments_view(payload.instruments@),
            ),
            music_box matches Some(made) ==> made.well_formed() && made@ == (Performance {
                instruments: instruments_view(payload.instruments@),
                voices: Seq::empty(),
                samples_per_beat: samples_per_beat_at(payload.tempo as int) as usize,
                current_sample: 0,
            }),
    {
        if Self::is_playable(payload.tempo, &payload.instruments) {
            Some(Self::new(payload.tempo, payload.instruments))
        } else {
            None
        }
    }

    /// Brings the box to the state from which the next sample is produced.
    fn update_state(&mut self)
        requires
            old(self).well_formed(),
        ensures
            final(self)@ == old(self)@.prepared(),
            told_apart(final(self).playing_instruments@),
            started_before(final(self).playing_instruments@, old(self).current_sample + 1),
    {
        let current_beat = self.current_sample / self.samples_per_beat;
        let ghost model = self@;
        if self.current_sample % self.samples_per_beat == 0 {
            activate(
                &self.instruments,
                current_beat,
                self.samples_per_beat,
                self.current_sample,
                &mut self.playing_instruments,
            );
            purge(&mut self.instruments, current_beat);
        }
        proof {
            if model.on_beat() {
                model.lemma_activated_voices();
                assert(self.playing_instruments@ == model.activated().voices);
                assert(self.playing_instruments@.len() == self.playing_instruments.len());
                lemma_numbered_told_apart(
                    model.voices,
                    new_voices(model.instruments, model.beat(), model.samples_per_beat),
                    model.current_sample,
                );
            }
            lemma_sounding_told_apart(self.playing_instruments@, model.current_sample + 1);
        }
        retire(&mut self.playing_instruments);
    }

    /// Produces the next sample: what every voice that sounds contributes to
    /// it. Yields `None` once the stream has ended.
    pub fn next(&mut self) -> (tick: Option<Vec<VoiceSignal>>)
        requires
            old(self).well_formed(),
        ensures
            final(self).well_formed(),
            old(self)@.stopped() ==> tick.is_none() && final(self)@ == old(self)@.prepared(),
            !old(self)@.stopped() ==> final(self)@ == old(self)@.after_tick() && (tick matches Some(
                signals,
            ) && signals@ == old(self)@.signals() && signals_told_apart(signals@)),
    {
        let ghost model = self@;
        self.update_state();
        let ghost ready = self@;
        proof {
            model.lemma_prepared();
        }
        if self.instruments.is_empty() && self.playing_instruments.is_empty() {
            return None;
        }
        proof {
            model.lemma_after_tick();
        }
        let mut signals: Vec<VoiceSignal> = Vec::new();
        let mut k: usize = 0;
        assert(ready.voices.take(0) =~= Seq::<PlayingVoice>::empty());
        while k < self.playing_instruments.len()
            invariant
                k <= ready.voices.len(),
                self.playing_instruments@.len() == ready.voices.len(),
                instruments_view(self.instruments@) == ready.instruments,
                self.samples_per_beat == ready.samples_per_beat,
                self.current_sample == ready.current_sample,
                ready.ready(),
                told_apart(ready.voices),
                started_before(ready.voices, ready.current_sample + 1),
                signals@ == signals_of(ready.voices.take(k as int)),
                forall|j: int|
                    k <= j < ready.voices.len() ==> self.playing_instruments@[j] == ready.voices[j],
                forall|j: int|
                    0 <= j < k ==> self.playing_instruments@[j] == pulled(ready.voices)[j],
            decreases ready.voices.len() - k,
        {
            proof {
                assert(ready.voices.take(k + 1).drop_last() =~= ready.voices.take(k as int));
                assert(ready.voices.take(k + 1).last() == ready.voices[k as int]);
                assert(ready.voices[k as int].node.well_formed());
            }
            let started = self.playing_instruments[k].started;
            let ordinal = self.playing_instruments[k].ordinal;
            match self.playing_instruments[k].node.next_sample() {
                Some(signal) => {
                    signals.push(VoiceSignal { started, ordinal, signal });
                },
                None => {},
            }
            k += 1;
        }
        proof {
            assert(ready.voices.take(k as int) =~= ready.voices);
            assert(self.playing_instruments@ =~= pulled(ready.voices));
            lemma_signals_told_apart(ready.voices);
        }
        self.current_sample += 1;
        Some(signals)
    }

    /// Pulls up to `size` samples. A full chunk comes back as `Ok`; where
    /// the stream ends first, what there was of it comes back as `Err`,
    /// which may be empty.
    pub fn chunk(&mut self, size: usize) -> (chunk: Result<
        Vec<Vec<VoiceSignal>>,
        Vec<Vec<VoiceSignal>>,
    >)
        requires
            old(self).well_formed(),
        ensures
            final(self).well_formed(),
            match chunk {
                Ok(ticks) => {
                    &&& ticks@.len() == size
                    &&& old(self)@.plays(size as nat)
                    &&& final(self)@ == old(self)@.after(size as nat)
                    &&& forall|k: int|
                        0 <= k < size ==> (#[trigger] ticks@[k])@ == old(self)@.after(
                            k as nat,
                        ).signals() && signals_told_apart(ticks@[k]@)
                },
                Err(ticks) => {
                    &&& ticks@.len() < size
                    &&& old(self)@.ends_after(ticks@.len())
                    &&& final(self)@ == old(self)@.after(ticks@.len()).prepared()
                    &&& forall|k: int|
                        0 <= k < ticks@.len() ==> (#[trigger] ticks@[k])@ == old(self)@.after(
                            k as nat,
                        ).signals() && signals_told_apart(ticks@[k]@)
                },
            },
    {
        let ghost start = self@;
        let mut output: Vec<Vec<VoiceSignal>> = Vec::with_capacity(size);
        let mut count: usize = 0;
        while count < size
            invariant
                count <= size,
                start == old(self)@,
                self.well_formed(),
                output@.len() == count,
                start.plays(count as nat),
                self@ == start.after(count as nat),
                forall|k: int|
                    0 <= k < count ==> (#[trigger] output@[k])@ == start.after(k as nat).signals()
                        && signals_told_apart(output@[k]@),
            decreases size - count,
        {
            match self.next() {
                Some(tick) => {
                    output.push(tick);
                    count += 1;
                },
                None => {
                    return Err(output);
                },
            }
        }
        Ok(output)
    }
}

} // verus!
