//! The track: instruments, and the notes they are still to play.
//!
//! The notes of an instrument are a list of entries, each with its beat and
//! the keys to sound on it. An entry leaves the list when its beat has come.

use crate::pitch::MidiKey;
use vstd::prelude::*;

verus! {

/// The instruments of the box.
#[derive(Clone, Copy, Debug, PartialEq, Eq)]
pub enum InstrumentName {
    Sawtooth,
    Sine,
    Square,
    Kick,
}

impl InstrumentName {
    /// The instrument that a track calls by the given name.
    pub fn from_name(name: &str) -> (found: Option<InstrumentName>)
        ensures
            found == if name@ == "sawtooth"@ {
                Some(InstrumentName::Sawtooth)
            } else if name@ == "sine"@ {
                Some(InstrumentName::Sine)
            } else if name@ == "square"@ {
                Some(InstrumentName::Square)
            } else if name@ == "kick"@ {
                Some(InstrumentName::Kick)
            } else {
                None::<InstrumentName>
            },
    {
        let name = name.to_owned();
        if name == "sawtooth".to_owned() {
            Some(InstrumentName::Sawtooth)
        } else if name == "sine".to_owned() {
            Some(InstrumentName::Sine)
        } else if name == "square".to_owned() {
            Some(InstrumentName::Square)
        } else if name == "kick".to_owned() {
            Some(InstrumentName::Kick)
        } else {
            None
        }
    }
}

/// The keys that an instrument plays on one beat.
#[derive(Clone, Debug, PartialEq)]
pub struct BeatNotes {
    pub beat: usize,
    pub keys: Vec<MidiKey>,
}

/// One instrument of a track: what it is, how loud, and what it plays.
///
/// `gain` is in decibels, as the bits of its single-precision encoding.
#[derive(Clone, Debug, PartialEq)]
pub struct InstrumentDto {
    pub name: InstrumentName,
    pub gain: u32,
    pub notes: Vec<BeatNotes>,
}

/// A track: its tempo in beats per minute, and its instruments.
#[derive(Clone, Debug, PartialEq)]
pub struct InstrumentPayloadDto {
    pub tempo: usize,
    pub instruments: Vec<InstrumentDto>,
}

/// An instrument as a mathematical value.
pub struct Instrument {
    pub name: InstrumentName,
    pub gain: u32,
    pub notes: Seq<BeatNotes>,
}

impl View for InstrumentDto {
    type V = Instrument;

    open spec fn view(&self) -> Instrument {
        Instrument { name: self.name, gain: self.gain, notes: self.notes@ }
    }
}

/// The instruments as mathematical values.
pub open spec fn instruments_view(instruments: Seq<InstrumentDto>) -> Seq<Instrument> {
    instruments.map_values(|instrument: InstrumentDto| instrument@)
}

/// The keys that the notes hold for `beat`, in the order of the notes.
pub open spec fn due_keys(notes: Seq<BeatNotes>, beat: int) -> Seq<MidiKey>
    decreases notes.len(),
{
    if notes.len() == 0 {
        Seq::empty()
    } else {
        let before = due_keys(notes.drop_last(), beat);
        if notes.last().beat == beat {
            before + notes.last().keys@
        } else {
            before
        }
    }
}

/// The notes that lie after `beat`, in their order.
pub open spec fn pending_notes(notes: Seq<BeatNotes>, beat: int) -> Seq<BeatNotes>
    decreases notes.len(),
{
    if notes.len() == 0 {
        Seq::empty()
    } else {
        let before = pending_notes(notes.drop_last(), beat);
        if notes.last().beat > beat {
            before.push(notes.last())
        } else {
            before
        }
    }
}

/// The schedule once `beat` is over: every instrument keeps the notes that
/// lie after `beat`, and an instrument with no note left is dropped.
pub open spec fn purged(instruments: Seq<Instrument>, beat: int) -> Seq<Instrument>
    decreases instruments.len(),
{
    if instruments.len() == 0 {
        Seq::empty()
    } else {
        let before = purged(instruments.drop_last(), beat);
        let last = instruments.last();
        let notes = pending_notes(last.notes, beat);
        if notes.len() > 0 {
            before.push(Instrument { name: last.name, gain: last.gain, notes })
        } else {
            before
        }
    }
}

/// Where keys are due on a beat, some note lies on that beat.
pub proof fn lemma_due_key(notes: Seq<BeatNotes>, beat: int) -> (j: int)
    requires
        due_keys(notes, beat).len() > 0,
    ensures
        0 <= j < notes.len(),
        notes[j].beat == beat,
    decreases notes.len(),
{
    if notes.last().beat == beat {
        notes.len() - 1
    } else {
        lemma_due_key(notes.drop_last(), beat)
    }
}

/// The notes that stay pending lie after `beat`, and are among the notes
/// there were: where every beat started at or after sample `low` and ended
/// at or before sample `high`, theirs do.
pub proof fn lemma_pending_notes(
    notes: Seq<BeatNotes>,
    beat: int,
    low: int,
    high: int,
    samples_per_beat: int,
)
    requires
        forall|j: int|
            0 <= j < notes.len() ==> {
                &&& (#[trigger] notes[j]).beat * samples_per_beat >= low
                &&& (notes[j].beat + 1) * samples_per_beat <= high
            },
    ensures
        pending_notes(notes, beat).len() <= notes.len(),
        forall|j: int|
            0 <= j < pending_notes(notes, beat).len() ==> {
                let note = #[trigger] pending_notes(notes, beat)[j];
                &&& note.beat > beat
                &&& note.beat * samples_per_beat >= low
                &&& (note.beat + 1) * samples_per_beat <= high
            },
    decreases notes.len(),
{
    if notes.len() > 0 {
        lemma_pending_notes(notes.drop_last(), beat, low, high, samples_per_beat);
        assert(notes.last() == notes[notes.len() - 1]);
    }
}

/// After a purge every instrument has a note, and every note lies after
/// `beat` and is among the notes there were: where every beat started at or
/// after sample `low` and ended at or before sample `high`, theirs do.
pub proof fn lemma_purged(
    instruments: Seq<Instrument>,
    beat: int,
    low: int,
    high: int,
    samples_per_beat: int,
)
    requires
        forall|i: int, j: int|
            0 <= i < instruments.len() && 0 <= j < instruments[i].notes.len() ==> {
                &&& (#[trigger] instruments[i].notes[j]).beat * samples_per_beat >= low
                &&& (instruments[i].notes[j].beat + 1) * samples_per_beat <= high
            },
    ensures
        purged(instruments, beat).len() <= instruments.len(),
        forall|i: int|
            0 <= i < purged(instruments, beat).len() ==> (#[trigger] purged(
                instruments,
                beat,
            )[i]).notes.len() > 0,
        forall|i: int, j: int|
            0 <= i < purged(instruments, beat).len() && 0 <= j < purged(
                instruments,
                beat,
            )[i].notes.len() ==> {
                let note = #[trigger] purged(instruments, beat)[i].notes[j];
                &&& note.beat > beat
                &&& note.beat * samples_per_beat >= low
                &&& (note.beat + 1) * samples_per_beat <= high
            },
    decreases instruments.len(),
{
    if instruments.len() > 0 {
        let front = instruments.drop_last();
        let last = instruments.last();
        assert forall|i: int, j: int|
            0 <= i < front.len() && 0 <= j < front[i].notes.len() implies {
            &&& (#[trigger] front[i].notes[j]).beat * samples_per_beat >= low
            &&& (front[i].notes[j].beat + 1) * samples_per_beat <= high
        } by {
            assert(front[i] == instruments[i]);
        }
        lemma_purged(front, beat, low, high, samples_per_beat);
        assert(last == instruments[instruments.len() - 1]);
        lemma_pending_notes(last.notes, beat, low, high, samples_per_beat);
    }
}

impl InstrumentDto {
    /// Takes every note at or before `beat` off the schedule of the
    /// instrument.
    pub fn drop_until(&mut self, beat: usize)
        ensures
            final(self).name == old(self).name,
            final(self).gain == old(self).gain,
            final(self).notes@ == pending_notes(old(self).notes@, beat as int),
    {
        let ghost notes = self.notes@;
        let ghost seen: int = 0;
        let mut kept: usize = 0;
        assert(self.notes@ =~= pending_notes(notes.take(0), beat as int) + notes.skip(0));
        while kept < self.notes.len()
            invariant
                self.name == old(self).name,
                self.gain == old(self).gain,
                notes == old(self).notes@,
                0 <= seen <= notes.len(),
                kept == pending_notes(notes.take(seen), beat as int).len(),
                self.notes@ == pending_notes(notes.take(seen), beat as int) + notes.skip(seen),
            decreases notes.len() - seen,
        {
            proof {
                assert(notes.take(seen + 1).drop_last() =~= notes.take(seen));
                assert(notes.take(seen + 1).last() == notes[seen]);
                assert(self.notes@[kept as int] == notes.skip(seen)[0]);
            }
            if self.notes[kept].beat > beat {
                kept += 1;
                proof {
                    assert(self.notes@ =~= pending_notes(notes.take(seen + 1), beat as int)
                        + notes.skip(seen + 1));
                }
            } else {
                self.notes.remove(kept);
                proof {
                    assert(self.notes@ =~= pending_notes(notes.take(seen + 1), beat as int)
                        + notes.skip(seen + 1));
                }
            }
            proof {
                seen = seen + 1;
            }
        }
        proof {
            assert(notes.skip(seen).len() == 0);
            assert(notes.take(seen) =~= notes);
            assert(self.notes@ =~= pending_notes(notes, beat as int));
        }
    }
}

/// Takes every note at or before `beat` off the schedule, and every
/// instrument that is left without a note.
pub(crate) fn purge(instruments: &mut Vec<InstrumentDto>, beat: usize)
    ensures
        instruments_view(final(instruments)@) == purged(
            instruments_view(old(instruments)@),
            beat as int,
        ),
{
    let ghost before = instruments_view(instruments@);
    let ghost seen: int = 0;
    let mut kept: usize = 0;
    assert(before.take(0) =~= Seq::<Instrument>::empty());
    while kept < instruments.len()
        invariant
            before == instruments_view(old(instruments)@),
            0 <= seen <= before.len(),
            kept == purged(before.take(seen), beat as int).len(),
            instruments@.len() == kept + before.len() - seen,
            forall|i: int|
                0 <= i < kept ==> (#[trigger] instruments@[i])@ == purged(
                    before.take(seen),
                    beat as int,
                )[i],
            forall|i: int|
                kept <= i < instruments@.len() ==> (#[trigger] instruments@[i])@ == before[seen + i
                    - kept],
        decreases before.len() - seen,
    {
        let ghost front = purged(before.take(seen), beat as int);
        let ghost earlier = instruments@;
        proof {
            assert(before.take(seen + 1).drop_last() =~= before.take(seen));
            assert(before.take(seen + 1).last() == before[seen]);
            assert(earlier[kept as int]@ == before[seen]);
        }
        instruments[kept].drop_until(beat);
        proof {
            assert(instruments@.len() == earlier.len());
            assert(forall|i: int|
                0 <= i < earlier.len() && i != kept ==> instruments@[i] == earlier[i]);
            assert(instruments@[kept as int].notes@ == pending_notes(
                before[seen].notes,
                beat as int,
            ));
        }
        let ghost purged_one = instruments@;
        if instruments[kept].notes.is_empty() {
            instruments.remove(kept);
            proof {
                assert(purged(before.take(seen + 1), beat as int) == front);
                assert forall|i: int| kept <= i < instruments@.len() implies (
                #[trigger] instruments@[i])@ == before[seen + 1 + i - kept] by {
                    assert(instruments@[i] == purged_one[i + 1]);
                    assert(purged_one[i + 1] == earlier[i + 1]);
                }
                assert forall|i: int| 0 <= i < kept implies (#[trigger] instruments@[i])@
                    == front[i] by {
                    assert(instruments@[i] == purged_one[i]);
                    assert(purged_one[i] == earlier[i]);
                }
            }
        } else {
            proof {
                let next = purged(before.take(seen + 1), beat as int);
                assert(next == front.push(instruments@[kept as int]@));
                assert forall|i: int| 0 <= i < kept + 1 implies (#[trigger] instruments@[i])@
                    == next[i] by {
                    if i < kept {
                        assert(instruments@[i] == earlier[i]);
                    }
                }
                assert forall|i: int| kept + 1 <= i < instruments@.len() implies (
                #[trigger] instruments@[i])@ == before[seen + 1 + i - (kept + 1)] by {
                    assert(instruments@[i] == earlier[i]);
                }
            }
            kept += 1;
        }
        proof {
            seen = seen + 1;
        }
    }
    proof {
        assert(before.take(seen) =~= before);
        assert(instruments_view(instruments@) =~= purged(before, beat as int));
    }
}

} // verus!
