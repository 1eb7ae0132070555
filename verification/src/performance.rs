//! The performance: the state of a music box as a mathematical value, the
//! step from one sample to the next, and what holds of every stream.

use crate::node::SoundNode;
use crate::pitch::MidiKey;
use crate::track::{due_keys, lemma_due_key, lemma_purged, purged};
use crate::track::{Instrument, InstrumentName};
use crate::voice::{lemma_sounding, lemma_voice_for, numbered, pulled, signals_of, sounding, voice_for};
use crate::voice::{PlayingVoice, Voice, VoiceSignal, VOICE_TAIL};
use vstd::prelude::*;

verus! {

/// Samples in one minute at the render sample rate: the number of samples
/// per beat at one beat per minute.
pub const SAMPLES_PER_MINUTE: usize = 2_646_000;

/// Number of samples in a beat at `tempo` beats per minute.
pub open spec fn samples_per_beat_at(tempo: int) -> int {
    SAMPLES_PER_MINUTE as int / tempo
}

/// A box can be made for the track: the tempo is positive and leaves a beat
/// at least one sample, and the sample counter can count to the end of
/// every note.
pub open spec fn playable(tempo: int, instruments: Seq<Instrument>) -> bool {
    &&& 0 < tempo <= SAMPLES_PER_MINUTE
    &&& forall|i: int, j: int|
        0 <= i < instruments.len() && 0 <= j < instruments[i].notes.len() ==> ((
        #[trigger] instruments[i].notes[j]).beat + 1) * samples_per_beat_at(tempo) + VOICE_TAIL
            <= usize::MAX
}

/// The state of a music box, as a mathematical value.
pub struct Performance {
    /// What is still to come.
    pub instruments: Seq<Instrument>,
    /// What sounds.
    pub voices: Seq<PlayingVoice>,
    pub samples_per_beat: usize,
    /// Number of samples produced so far.
    pub current_sample: usize,
}

/// One voice per key, on the given instrument.
pub open spec fn voices_of_keys(
    name: InstrumentName,
    gain: u32,
    keys: Seq<MidiKey>,
    samples_per_beat: usize,
) -> Seq<Voice> {
    Seq::new(keys.len(), |k: int| voice_for(name, gain, keys[k], samples_per_beat))
}

/// The voices that one instrument starts on `beat`: one per key that it
/// holds for that beat.
pub open spec fn instrument_voices(
    instrument: Instrument,
    beat: int,
    samples_per_beat: usize,
) -> Seq<Voice> {
    voices_of_keys(
        instrument.name,
        instrument.gain,
        due_keys(instrument.notes, beat),
        samples_per_beat,
    )
}

/// The voices that start on `beat`, instrument by instrument.
pub open spec fn new_voices(
    instruments: Seq<Instrument>,
    beat: int,
    samples_per_beat: usize,
) -> Seq<Voice>
    decreases instruments.len(),
{
    if instruments.len() == 0 {
        Seq::empty()
    } else {
        new_voices(instruments.drop_last(), beat, samples_per_beat) + instrument_voices(
            instruments.last(),
            beat,
            samples_per_beat,
        )
    }
}

impl Performance {
    /// The beat that the next sample lies in.
    pub open spec fn beat(self) -> int {
        self.current_sample as int / self.samples_per_beat as int
    }

    /// The next sample is the first of its beat.
    pub open spec fn on_beat(self) -> bool {
        self.current_sample as int % self.samples_per_beat as int == 0
    }

    /// The state with the notes of the current beat turned into voices and
    /// taken off the schedule, together with all that lay before it.
    pub open spec fn activated(self) -> Performance {
        Performance {
            instruments: purged(self.instruments, self.beat()),
            voices: self.voices + numbered(
                new_voices(self.instruments, self.beat(), self.samples_per_beat),
                self.current_sample,
            ),
            ..self
        }
    }

    /// The state from which the next sample is produced: on the first sample
    /// of a beat the notes of the beat have been activated, and in any case
    /// the voices that have ended are gone.
    pub open spec fn prepared(self) -> Performance {
        let scheduled = if self.on_beat() {
            self.activated()
        } else {
            self
        };
        Performance { voices: sounding(scheduled.voices), ..scheduled }
    }

    /// The stream has ended: no note is to come and no voice sounds.
    pub open spec fn stopped(self) -> bool {
        self.prepared().instruments.len() == 0 && self.prepared().voices.len() == 0
    }

    /// What the next sample is made of.
    pub open spec fn signals(self) -> Seq<VoiceSignal> {
        signals_of(self.prepared().voices)
    }

    /// The state after the next sample.
    pub open spec fn after_tick(self) -> Performance {
        let ready = self.prepared();
        Performance {
            voices: pulled(ready.voices),
            current_sample: (ready.current_sample + 1) as usize,
            ..ready
        }
    }

    /// The state after `ticks` samples.
    pub open spec fn after(self, ticks: nat) -> Performance
        decreases ticks,
    {
        if ticks == 0 {
            self
        } else {
            self.after((ticks - 1) as nat).after_tick()
        }
    }

    /// The stream has at least `ticks` more samples.
    pub open spec fn plays(self, ticks: nat) -> bool {
        forall|k: nat| k < ticks ==> !(#[trigger] self.after(k)).stopped()
    }

    /// The stream has exactly `total` more samples.
    pub open spec fn ends_after(self, total: nat) -> bool {
        self.plays(total) && self.after(total).stopped()
    }

    /// Number of samples that the stream still has.
    pub open spec fn total_samples(self) -> nat {
        choose|total: nat| self.ends_after(total)
    }

    /// Every note that is to come lies at or after the next sample, and
    /// early enough that the sample counter can count to the end of every
    /// voice it starts; every voice that sounds is well formed and ends
    /// before the counter runs out; and once the first sample is out, no
    /// instrument is without notes.
    pub open spec fn well_formed(self) -> bool {
        &&& self.samples_per_beat > 0
        &&& forall|i: int, j: int|
            0 <= i < self.instruments.len() && 0 <= j < self.instruments[i].notes.len() ==> {
                let beat = (#[trigger] self.instruments[i].notes[j]).beat;
                &&& beat * self.samples_per_beat >= self.current_sample
                &&& (beat + 1) * self.samples_per_beat + VOICE_TAIL <= usize::MAX
            }
        &&& self.current_sample > 0 ==> forall|i: int|
            0 <= i < self.instruments.len() ==> (#[trigger] self.instruments[i]).notes.len() > 0
        &&& forall|k: int|
            0 <= k < self.voices.len() ==> {
                let voice = #[trigger] self.voices[k];
                &&& voice.node.well_formed()
                &&& self.current_sample + voice.node.life() <= usize::MAX
            }
    }

    /// The state is one from which a sample can be produced: it is well
    /// formed, every note that is to come lies after the next sample, no
    /// instrument is without notes, and no voice has ended.
    pub open spec fn ready(self) -> bool {
        &&& self.well_formed()
        &&& forall|i: int, j: int|
            0 <= i < self.instruments.len() && 0 <= j < self.instruments[i].notes.len() ==> (
            #[trigger] self.instruments[i].notes[j]).beat * self.samples_per_beat
                > self.current_sample
        &&& forall|i: int|
            0 <= i < self.instruments.len() ==> (#[trigger] self.instruments[i]).notes.len() > 0
        &&& forall|k: int| 0 <= k < self.voices.len() ==> !(#[trigger] self.voices[k]).node.finished()
    }
}

/// A beat that lies after the beat of sample `sample` starts after that
/// sample; and a beat that starts at or after `sample` and does not lie
/// after its beat is its beat, and starts with it.
pub proof fn lemma_beat_start(sample: int, samples_per_beat: int, beat: int)
    requires
        0 <= sample,
        0 < samples_per_beat,
        0 <= beat,
    ensures
        beat > sample / samples_per_beat ==> beat * samples_per_beat > sample,
        beat * samples_per_beat >= sample && beat <= sample / samples_per_beat ==> beat == sample
            / samples_per_beat && sample % samples_per_beat == 0 && beat * samples_per_beat
            == sample,
{
    vstd::arithmetic::div_mod::lemma_fundamental_div_mod(sample, samples_per_beat);
    vstd::arithmetic::div_mod::lemma_mod_bound(sample, samples_per_beat);
    let current = sample / samples_per_beat;
    if beat > current {
        assert(beat * samples_per_beat >= (current + 1) * samples_per_beat) by (nonlinear_arith)
            requires
                beat >= current + 1,
                samples_per_beat > 0,
        ;
        assert((current + 1) * samples_per_beat == samples_per_beat * current + samples_per_beat)
            by (nonlinear_arith);
    }
    if beat * samples_per_beat >= sample && beat <= current {
        assert(beat * samples_per_beat <= current * samples_per_beat) by (nonlinear_arith)
            requires
                beat <= current,
                samples_per_beat > 0,
        ;
        assert(current * samples_per_beat == samples_per_beat * current) by (nonlinear_arith);
        if beat < current {
            assert(beat * samples_per_beat <= (current - 1) * samples_per_beat)
                by (nonlinear_arith)
                requires
                    beat <= current - 1,
                    samples_per_beat > 0,
            ;
            assert((current - 1) * samples_per_beat == samples_per_beat * current
                - samples_per_beat) by (nonlinear_arith);
        }
    }
}

/// Whole multiples: `count` times `size` is at most `room` exactly when
/// `count` is at most `room` divided by `size`.
pub(crate) proof fn lemma_multiples_fit(count: int, size: int, room: int)
    requires
        0 <= count,
        0 < size,
        0 <= room,
    ensures
        count * size <= room <==> count <= room / size,
{
    vstd::arithmetic::div_mod::lemma_fundamental_div_mod(room, size);
    vstd::arithmetic::div_mod::lemma_mod_bound(room, size);
    let whole = room / size;
    if count <= whole {
        assert(count * size <= whole * size) by (nonlinear_arith)
            requires
                count <= whole,
                size > 0,
        ;
        assert(whole * size == size * whole) by (nonlinear_arith);
    } else {
        assert(count * size >= (whole + 1) * size) by (nonlinear_arith)
            requires
                count >= whole + 1,
                size > 0,
        ;
        assert((whole + 1) * size == size * whole + size) by (nonlinear_arith);
    }
}

/// Every voice that starts on a beat is new: well formed, not ended, and
/// over within a beat and the tail of the reverb.
pub proof fn lemma_new_voices(instruments: Seq<Instrument>, beat: int, samples_per_beat: usize)
    requires
        samples_per_beat > 0,
    ensures
        forall|k: int|
            0 <= k < new_voices(instruments, beat, samples_per_beat).len() ==> {
                let voice = #[trigger] new_voices(instruments, beat, samples_per_beat)[k];
                &&& voice.well_formed()
                &&& !voice.finished()
                &&& voice.life() <= samples_per_beat + VOICE_TAIL
            },
    decreases instruments.len(),
{
    if instruments.len() > 0 {
        let front = new_voices(instruments.drop_last(), beat, samples_per_beat);
        let last = instruments.last();
        let keys = due_keys(last.notes, beat);
        lemma_new_voices(instruments.drop_last(), beat, samples_per_beat);
        assert forall|k: int|
            0 <= k < new_voices(instruments, beat, samples_per_beat).len() implies {
            let voice = #[trigger] new_voices(instruments, beat, samples_per_beat)[k];
            &&& voice.well_formed()
            &&& !voice.finished()
            &&& voice.life() <= samples_per_beat + VOICE_TAIL
        } by {
            if k >= front.len() {
                lemma_voice_for(last.name, last.gain, keys[k - front.len()], samples_per_beat);
            }
        }
    }
}

/// Where voices start on a beat, some instrument has a note on that beat.
pub proof fn lemma_due_note(instruments: Seq<Instrument>, beat: int, samples_per_beat: usize) -> (at:
    (int, int))
    requires
        new_voices(instruments, beat, samples_per_beat).len() > 0,
    ensures
        0 <= at.0 < instruments.len(),
        0 <= at.1 < instruments[at.0].notes.len(),
        instruments[at.0].notes[at.1].beat == beat,
    decreases instruments.len(),
{
    let last = instruments.last();
    if instrument_voices(last, beat, samples_per_beat).len() > 0 {
        let j = lemma_due_key(last.notes, beat);
        (instruments.len() - 1, j)
    } else {
        let at = lemma_due_note(instruments.drop_last(), beat, samples_per_beat);
        at
    }
}

/// Instruments without notes start no voice, and a purge drops them all.
proof fn lemma_no_notes(instruments: Seq<Instrument>, beat: int, samples_per_beat: usize)
    requires
        forall|i: int|
            0 <= i < instruments.len() ==> (#[trigger] instruments[i]).notes.len() == 0,
    ensures
        new_voices(instruments, beat, samples_per_beat).len() == 0,
        purged(instruments, beat).len() == 0,
    decreases instruments.len(),
{
    if instruments.len() > 0 {
        lemma_no_notes(instruments.drop_last(), beat, samples_per_beat);
        assert(instruments.last() == instruments[instruments.len() - 1]);
    }
}

impl Performance {
    /// Preparing a well-formed state gives one from which a sample can be
    /// produced.
    pub proof fn lemma_prepared(self)
        requires
            self.well_formed(),
        ensures
            self.prepared().ready(),
            self.prepared().samples_per_beat == self.samples_per_beat,
            self.prepared().current_sample == self.current_sample,
    {
        let sample = self.current_sample as int;
        let length = self.samples_per_beat as int;
        let beat = self.beat();
        let scheduled = if self.on_beat() {
            self.activated()
        } else {
            self
        };
        if self.on_beat() {
            lemma_purged(self.instruments, beat, sample, usize::MAX - VOICE_TAIL, length);
            lemma_new_voices(self.instruments, beat, self.samples_per_beat);
            let fresh = new_voices(self.instruments, beat, self.samples_per_beat);
            vstd::arithmetic::div_mod::lemma_fundamental_div_mod(sample, length);
            assert(sample == beat * length) by (nonlinear_arith)
                requires
                    sample == length * beat + 0,
            ;
            assert forall|k: int| 0 <= k < scheduled.voices.len() implies {
                let voice = #[trigger] scheduled.voices[k];
                &&& voice.node.well_formed()
                &&& sample + voice.node.life() <= usize::MAX
            } by {
                if k >= self.voices.len() {
                    let place = k - self.voices.len();
                    assert(scheduled.voices[k].node == fresh[place]);
                    self.lemma_note_on_beat(fresh[place].life() as int);
                } else {
                    assert(scheduled.voices[k] == self.voices[k]);
                }
            }
            assert forall|i: int, j: int|
                0 <= i < scheduled.instruments.len() && 0 <= j
                    < scheduled.instruments[i].notes.len() implies (
            #[trigger] scheduled.instruments[i].notes[j]).beat * length > sample by {
                lemma_beat_start(sample, length, scheduled.instruments[i].notes[j].beat as int);
            }
        } else {
            assert(sample > 0) by {
                vstd::arithmetic::div_mod::lemma_small_mod(0, length as nat);
            }
            assert forall|i: int, j: int|
                0 <= i < scheduled.instruments.len() && 0 <= j
                    < scheduled.instruments[i].notes.len() implies (
            #[trigger] scheduled.instruments[i].notes[j]).beat * length > sample by {
                lemma_beat_start(sample, length, scheduled.instruments[i].notes[j].beat as int);
            }
        }
        lemma_sounding(scheduled.voices, sample);
    }

    /// A voice that starts now, on the beat of some note, ends before the
    /// sample counter runs out, if it lives no longer than a beat and the
    /// tail of the reverb. Where no note is due, no voice starts.
    proof fn lemma_note_on_beat(self, life: int)
        requires
            self.well_formed(),
            self.on_beat(),
            new_voices(self.instruments, self.beat(), self.samples_per_beat).len() > 0,
            life <= self.samples_per_beat + VOICE_TAIL,
        ensures
            self.current_sample + life <= usize::MAX,
    {
        let sample = self.current_sample as int;
        let length = self.samples_per_beat as int;
        let (i, j) = lemma_due_note(self.instruments, self.beat(), self.samples_per_beat);
        let note = self.instruments[i].notes[j];
        vstd::arithmetic::div_mod::lemma_fundamental_div_mod(sample, length);
        assert((note.beat + 1) * length == sample + length) by (nonlinear_arith)
            requires
                sample == length * (sample / length) + 0,
                note.beat == sample / length,
        ;
    }

    /// The voices after an activation are well formed.
    pub proof fn lemma_activated_voices(self)
        requires
            self.well_formed(),
        ensures
            forall|k: int|
                0 <= k < self.activated().voices.len() ==> (
                #[trigger] self.activated().voices[k]).node.well_formed(),
    {
        lemma_new_voices(self.instruments, self.beat(), self.samples_per_beat);
        let fresh = new_voices(self.instruments, self.beat(), self.samples_per_beat);
        assert forall|k: int| 0 <= k < self.activated().voices.len() implies (
        #[trigger] self.activated().voices[k]).node.well_formed() by {
            if k >= self.voices.len() {
                assert(self.activated().voices[k].node == fresh[k - self.voices.len()]);
            } else {
                assert(self.activated().voices[k] == self.voices[k]);
            }
        }
    }

    /// Producing a sample from a well-formed state leaves a well-formed
    /// state, and the sample counter does not run out.
    pub proof fn lemma_after_tick(self)
        requires
            self.well_formed(),
            !self.stopped(),
        ensures
            self.current_sample < usize::MAX,
            self.after_tick().well_formed(),
    {
        self.lemma_prepared();
        let ready = self.prepared();
        let next = self.after_tick();
        let sample = self.current_sample as int;
        let length = self.samples_per_beat as int;
        if ready.voices.len() > 0 {
            ready.voices[0].node.lemma_pull();
        } else {
            let beat = ready.instruments[0].notes[0].beat as int;
            assert((beat + 1) * length >= beat * length) by (nonlinear_arith)
                requires
                    length > 0,
            ;
        }
        assert forall|k: int| 0 <= k < next.voices.len() implies {
            let voice = #[trigger] next.voices[k];
            &&& voice.node.well_formed()
            &&& next.current_sample + voice.node.life() <= usize::MAX
        } by {
            ready.voices[k].node.lemma_pull();
        }
    }

    /// Samples add up: the state after `first` samples and then `second`
    /// more is the state after `first + second`.
    pub proof fn lemma_after_after(self, first: nat, second: nat)
        ensures
            self.after(first).after(second) == self.after(first + second),
        decreases second,
    {
        if second > 0 {
            self.lemma_after_after(first, (second - 1) as nat);
        }
    }

    /// While the stream plays, the states it goes through are well formed,
    /// and the sample counter counts the samples.
    pub proof fn lemma_after_counts(self, ticks: nat)
        requires
            self.well_formed(),
            self.plays(ticks),
        ensures
            self.after(ticks).well_formed(),
            self.after(ticks).current_sample == self.current_sample + ticks,
            self.after(ticks).samples_per_beat == self.samples_per_beat,
        decreases ticks,
    {
        if ticks > 0 {
            let before = (ticks - 1) as nat;
            self.lemma_after_counts(before);
            self.after(before).lemma_after_tick();
        }
    }

    /// A stream that has played `ticks` samples ends after some number of
    /// samples, which the sample counter can hold.
    proof fn lemma_ends_from(self, ticks: nat) -> (total: nat)
        requires
            self.well_formed(),
            self.plays(ticks),
        ensures
            self.ends_after(total),
            self.current_sample + total <= usize::MAX,
        decreases usize::MAX - self.current_sample - ticks,
    {
        self.lemma_after_counts(ticks);
        if self.after(ticks).stopped() {
            ticks
        } else {
            self.after(ticks).lemma_after_tick();
            self.lemma_ends_from(ticks + 1)
        }
    }

    /// Every stream ends: a well-formed state has a number of samples after
    /// which it has stopped, and not before.
    pub proof fn lemma_stream_ends(self) -> (total: nat)
        requires
            self.well_formed(),
        ensures
            self.ends_after(total),
            total == self.total_samples(),
    {
        let total = self.lemma_ends_from(0);
        self.lemma_total_is_unique(total, self.total_samples());
        total
    }

    /// A stream has one length only.
    pub proof fn lemma_total_is_unique(self, first: nat, second: nat)
        requires
            self.ends_after(first),
            self.ends_after(second),
        ensures
            first == second,
    {
    }

    /// A stream that plays `first + second` samples still plays `second`
    /// samples once `first` are out.
    pub proof fn lemma_plays_on(self, first: nat, second: nat)
        requires
            self.plays(first + second),
        ensures
            self.after(first).plays(second),
    {
        assert forall|k: nat| k < second implies !(#[trigger] self.after(first).after(
            k,
        )).stopped() by {
            self.lemma_after_after(first, k);
            assert(!self.after(first + k).stopped());
        }
    }

    /// The shape of a stream that is pulled in chunks of `size` samples:
    /// the first `total / size` chunks are full, and the chunk after them
    /// is short and holds the `total mod size` samples that are left, where
    /// `total` is the length of the stream.
    pub proof fn lemma_chunk_count(self, size: nat)
        requires
            self.well_formed(),
            size > 0,
        ensures
            forall|pull: nat|
                pull < self.total_samples() / size ==> (#[trigger] self.after(pull * size)).plays(
                    size,
                ),
            self.after((self.total_samples() / size) * size).ends_after(
                self.total_samples() % size,
            ),
            self.total_samples() % size < size,
    {
        let total = self.lemma_stream_ends();
        let full = total / size;
        let rest = total % size;
        vstd::arithmetic::div_mod::lemma_fundamental_div_mod(total as int, size as int);
        vstd::arithmetic::div_mod::lemma_mod_bound(total as int, size as int);
        assert(full * size == size * full) by (nonlinear_arith);
        assert forall|pull: nat| pull < full implies (#[trigger] self.after(pull * size)).plays(
            size,
        ) by {
            assert((pull + 1) * size <= full * size) by (nonlinear_arith)
                requires
                    pull + 1 <= full,
                    size > 0,
            ;
            assert((pull + 1) * size == pull * size + size) by (nonlinear_arith);
            self.lemma_plays_on(pull * size, size);
        }
        self.lemma_plays_on(full * size, rest);
        self.lemma_after_after(full * size, rest);
    }

    /// No note of a well-formed state lies in the past: all that a purge
    /// takes off the schedule are notes of the current beat, which the
    /// activation has turned into voices. No note is lost, and none sounds
    /// twice.
    pub proof fn lemma_no_note_is_past(self, i: int, j: int)
        requires
            self.well_formed(),
            0 <= i < self.instruments.len(),
            0 <= j < self.instruments[i].notes.len(),
        ensures
            self.instruments[i].notes[j].beat >= self.beat(),
            self.instruments[i].notes[j].beat == self.beat() ==> self.on_beat(),
    {
        lemma_beat_start(
            self.current_sample as int,
            self.samples_per_beat as int,
            self.instruments[i].notes[j].beat as int,
        );
    }

    /// A new box with no note to play has ended before its first sample,
    /// whether it has no instrument or only instruments without notes.
    pub proof fn lemma_nothing_to_play(self)
        requires
            self.samples_per_beat > 0,
            self.current_sample == 0,
            self.voices.len() == 0,
            forall|i: int|
                0 <= i < self.instruments.len() ==> (#[trigger] self.instruments[i]).notes.len()
                    == 0,
        ensures
            self.stopped(),
            self.ends_after(0),
            self.total_samples() == 0,
    {
        let beat = self.beat();
        lemma_no_notes(self.instruments, beat, self.samples_per_beat);
        vstd::arithmetic::div_mod::lemma_small_mod(0, self.samples_per_beat as nat);
        assert(self.activated().voices =~= Seq::<PlayingVoice>::empty());
        assert(self.after(0) == self);
        assert(self.ends_after(0));
        self.lemma_total_is_unique(0, self.total_samples());
    }
}

} // verus!
