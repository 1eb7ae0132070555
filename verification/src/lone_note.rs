//! The simplest track, worked out in full: one note on the first beat.

use crate::gain::{lemma_gain_follows, GainNode};
use crate::node::{after, lemma_after_well_formed, sounds_for, Signal, SoundNode, Waveform};
use crate::oscillator::{fade_level, lemma_oscillator_plays, PlayedWaveform};
use crate::performance::{new_voices, Performance};
use crate::pitch::MidiKey;
use crate::track::{due_keys, pending_notes, purged, BeatNotes, Instrument, InstrumentName};
use crate::voice::{lemma_voice_follows, lemma_voice_for, lemma_voice_sounds, note_length};
use crate::voice::REVERB_TAIL;
use crate::voice::{pulled, signals_of, sounding, voice_for, PlayingVoice, Voice, VoiceSignal};
use vstd::prelude::*;

verus! {

/// The first voice of a box, after `elapsed` pulls.
pub open spec fn lone_voice(node: Voice, elapsed: nat) -> PlayingVoice {
    PlayingVoice { started: 0, ordinal: 0, node: after(node, elapsed) }
}

/// A box whose schedule is over and in which the first voice sounds alone,
/// `elapsed` samples into the stream.
pub open spec fn lone_voice_playing(
    node: Voice,
    samples_per_beat: usize,
    elapsed: nat,
) -> Performance {
    Performance {
        instruments: Seq::empty(),
        voices: seq![lone_voice(node, elapsed)],
        samples_per_beat,
        current_sample: elapsed as usize,
    }
}

/// A new box for a track of one instrument with one note, on the first
/// beat.
pub open spec fn lone_note_track(
    name: InstrumentName,
    gain: u32,
    note: BeatNotes,
    samples_per_beat: usize,
) -> Performance {
    Performance {
        instruments: seq![Instrument { name, gain, notes: seq![note] }],
        voices: Seq::empty(),
        samples_per_beat,
        current_sample: 0,
    }
}

/// What a lone voice contributes to a sample: what its node yields.
pub open spec fn lone_signals(node: Voice, elapsed: nat) -> Seq<VoiceSignal> {
    seq![
        VoiceSignal { started: 0, ordinal: 0, signal: after(node, elapsed).signal().unwrap() },
    ]
}

/// What a lone sawtooth note contributes to sample `elapsed` of its beat:
/// the oscillator at that index, under the fade envelope and the gain of
/// the instrument.
pub open spec fn sawtooth_signal(
    gain: u32,
    key: MidiKey,
    samples_per_beat: usize,
    elapsed: usize,
) -> Signal {
    Signal::Scaled {
        gain,
        input: Box::new(
            Signal::Wave {
                waveform: Waveform::Sawtooth,
                frequency: key.spec_frequency_bits(),
                index: elapsed,
                fade: fade_level(elapsed as int, samples_per_beat as int) as usize,
            },
        ),
    }
}

/// With nothing scheduled, a beat starts no voice and leaves the schedule
/// empty.
proof fn lemma_nothing_scheduled(beat: int, samples_per_beat: usize)
    ensures
        purged(Seq::<Instrument>::empty(), beat) == Seq::<Instrument>::empty(),
        new_voices(Seq::<Instrument>::empty(), beat, samples_per_beat) == Seq::<Voice>::empty(),
{
}

/// A lone voice that yields a sample is kept, yields it, and moves on by a
/// pull; one that has ended is retired.
proof fn lemma_lone_voice(node: Voice, elapsed: nat)
    requires
        after(node, elapsed).well_formed(),
    ensures
        ({
            let voice = lone_voice(node, elapsed);
            if after(node, elapsed).signal().is_some() {
                &&& sounding(seq![voice]) == seq![voice]
                &&& signals_of(seq![voice]) == lone_signals(node, elapsed)
                &&& pulled(seq![voice]) == seq![lone_voice(node, elapsed + 1)]
            } else {
                after(node, elapsed).finished() ==> sounding(seq![voice]).len() == 0
            }
        }),
{
    let voice = lone_voice(node, elapsed);
    let voices = seq![voice];
    after(node, elapsed).lemma_pull();
    assert(voices.drop_last() =~= Seq::<PlayingVoice>::empty());
    assert(sounding(voices.drop_last()) =~= Seq::<PlayingVoice>::empty());
    assert(signals_of(voices.drop_last()) =~= Seq::<VoiceSignal>::empty());
    assert(voices.last() == voice);
    if after(node, elapsed).signal().is_some() {
        assert(sounding(voices) =~= voices);
        assert(signals_of(voices) =~= lone_signals(node, elapsed));
        assert(pulled(voices) =~= seq![lone_voice(node, elapsed + 1)]);
    } else if after(node, elapsed).finished() {
        assert(sounding(voices) =~= Seq::<PlayingVoice>::empty());
    }
}

/// While a lone voice sounds, the box yields its signal and moves on by a
/// sample.
proof fn lemma_lone_voice_plays(node: Voice, samples_per_beat: usize, count: nat, elapsed: nat)
    requires
        node.well_formed(),
        sounds_for(node, count),
        0 < samples_per_beat,
        elapsed < count < usize::MAX,
    ensures
        !lone_voice_playing(node, samples_per_beat, elapsed).stopped(),
        lone_voice_playing(node, samples_per_beat, elapsed).signals() == lone_signals(
            node,
            elapsed,
        ),
        lone_voice_playing(node, samples_per_beat, elapsed).after_tick() == lone_voice_playing(
            node,
            samples_per_beat,
            elapsed + 1,
        ),
{
    let state = lone_voice_playing(node, samples_per_beat, elapsed);
    lemma_after_well_formed(node, elapsed);
    lemma_lone_voice(node, elapsed);
    lemma_nothing_scheduled(state.beat(), samples_per_beat);
    assert(after(node, elapsed).signal().is_some());
    assert(state.activated().voices =~= state.voices);
}

/// When a lone voice has ended, the stream has.
proof fn lemma_lone_voice_ends(node: Voice, samples_per_beat: usize, count: nat)
    requires
        node.well_formed(),
        sounds_for(node, count),
        0 < samples_per_beat,
        count < usize::MAX,
    ensures
        lone_voice_playing(node, samples_per_beat, count).stopped(),
{
    let state = lone_voice_playing(node, samples_per_beat, count);
    lemma_after_well_formed(node, count);
    after(node, count).lemma_pull();
    lemma_lone_voice(node, count);
    lemma_nothing_scheduled(state.beat(), samples_per_beat);
    assert(state.activated().voices =~= state.voices);
}

/// The first sample of a lone note is that of its voice sounding alone.
proof fn lemma_lone_note_starts(
    name: InstrumentName,
    gain: u32,
    note: BeatNotes,
    key: MidiKey,
    samples_per_beat: usize,
)
    requires
        0 < samples_per_beat,
        note.beat == 0,
        note.keys@ == seq![key],
    ensures
        lone_note_track(name, gain, note, samples_per_beat).prepared() == lone_voice_playing(
            voice_for(name, gain, key, samples_per_beat),
            samples_per_beat,
            0,
        ).prepared(),
{
    let start = lone_note_track(name, gain, note, samples_per_beat);
    let node = voice_for(name, gain, key, samples_per_beat);
    let alone = lone_voice_playing(node, samples_per_beat, 0);
    let instrument = start.instruments[0];
    let none = Seq::<Instrument>::empty();
    vstd::arithmetic::div_mod::lemma_small_mod(0, samples_per_beat as nat);
    vstd::arithmetic::div_mod::lemma_div_basics(samples_per_beat as int);
    assert(start.beat() == 0);
    assert(start.instruments.drop_last() =~= none);
    assert(instrument.notes.drop_last() =~= Seq::<BeatNotes>::empty());
    assert(due_keys(instrument.notes.drop_last(), 0) =~= Seq::<MidiKey>::empty());
    assert(due_keys(instrument.notes, 0) =~= seq![key]);
    assert(pending_notes(instrument.notes.drop_last(), 0) =~= Seq::<BeatNotes>::empty());
    assert(pending_notes(instrument.notes, 0) =~= Seq::<BeatNotes>::empty());
    lemma_nothing_scheduled(0, samples_per_beat);
    assert(purged(start.instruments, 0) =~= none);
    let fresh = new_voices(start.instruments, 0, samples_per_beat);
    assert(fresh =~= seq![node]);
    assert(start.activated().voices =~= seq![lone_voice(node, 0)]);
    assert(alone.activated().voices =~= seq![lone_voice(node, 0)]);
}

/// The states that the box of a lone note goes through.
proof fn lemma_lone_note_after(
    name: InstrumentName,
    gain: u32,
    note: BeatNotes,
    key: MidiKey,
    samples_per_beat: usize,
    count: nat,
    ticks: nat,
)
    requires
        0 < samples_per_beat,
        note.beat == 0,
        note.keys@ == seq![key],
        sounds_for(voice_for(name, gain, key, samples_per_beat), count),
        0 < ticks <= count < usize::MAX,
    ensures
        lone_note_track(name, gain, note, samples_per_beat).after(ticks) == lone_voice_playing(
            voice_for(name, gain, key, samples_per_beat),
            samples_per_beat,
            ticks,
        ),
        lone_note_track(name, gain, note, samples_per_beat).plays(ticks),
    decreases ticks,
{
    let start = lone_note_track(name, gain, note, samples_per_beat);
    let node = voice_for(name, gain, key, samples_per_beat);
    lemma_voice_for(name, gain, key, samples_per_beat);
    assert(start.after(0) == start);
    lemma_lone_note_starts(name, gain, note, key, samples_per_beat);
    lemma_lone_voice_plays(node, samples_per_beat, count, 0);
    if ticks > 1 {
        let before = (ticks - 1) as nat;
        lemma_lone_note_after(name, gain, note, key, samples_per_beat, count, before);
        lemma_lone_voice_plays(node, samples_per_beat, count, before);
        assert forall|k: nat| k < ticks implies !(#[trigger] start.after(k)).stopped() by {
            if k < before {
                assert(start.plays(before));
            }
        }
    } else {
        assert(start.after(1) == start.after(0).after_tick());
    }
}

/// A track of a single note on the first beat sounds for exactly the length
/// of the note: a beat for a sawtooth note, a beat and the tail of the
/// reverb for a sine or square note, one second for a kick. Every sample is
/// what the voice of the note yields on that pull, and nothing else. For a
/// sine or square note this asks for a beat that is no shorter than the
/// first line of the reverb.
pub proof fn lemma_lone_note(
    name: InstrumentName,
    gain: u32,
    note: BeatNotes,
    key: MidiKey,
    samples_per_beat: usize,
)
    requires
        0 < samples_per_beat,
        samples_per_beat + REVERB_TAIL < usize::MAX,
        note.beat == 0,
        note.keys@ == seq![key],
        name == InstrumentName::Sine || name == InstrumentName::Square ==> samples_per_beat
            >= 4410,
    ensures
        lone_note_track(name, gain, note, samples_per_beat).total_samples() == note_length(
            name,
            samples_per_beat,
        ),
        forall|k: nat|
            k < note_length(name, samples_per_beat) ==> (#[trigger] lone_note_track(
                name,
                gain,
                note,
                samples_per_beat,
            ).after(k)).signals() == lone_signals(
                voice_for(name, gain, key, samples_per_beat),
                k,
            ),
{
    let start = lone_note_track(name, gain, note, samples_per_beat);
    let node = voice_for(name, gain, key, samples_per_beat);
    let count = note_length(name, samples_per_beat);
    lemma_voice_for(name, gain, key, samples_per_beat);
    lemma_voice_sounds(name, gain, key, samples_per_beat);
    lemma_lone_note_after(name, gain, note, key, samples_per_beat, count, count);
    lemma_lone_voice_ends(node, samples_per_beat, count);
    assert(start.ends_after(count));
    start.lemma_total_is_unique(count, start.total_samples());
    assert forall|k: nat| k < count implies (#[trigger] start.after(k)).signals() == lone_signals(
        node,
        k,
    ) by {
        if k == 0 {
            assert(start.after(0) == start);
            lemma_lone_note_starts(name, gain, note, key, samples_per_beat);
        } else {
            lemma_lone_note_after(name, gain, note, key, samples_per_beat, count, k);
        }
        lemma_lone_voice_plays(node, samples_per_beat, count, k);
    }
}

/// What a lone sawtooth note yields on pull `elapsed` of its beat is the
/// oscillator at that index, under the fade envelope and the gain of the
/// instrument.
pub proof fn lemma_sawtooth_signals(gain: u32, key: MidiKey, samples_per_beat: usize, elapsed: nat)
    requires
        elapsed < samples_per_beat,
    ensures
        lone_signals(voice_for(InstrumentName::Sawtooth, gain, key, samples_per_beat), elapsed)
            == seq![
            VoiceSignal {
                started: 0,
                ordinal: 0,
                signal: sawtooth_signal(gain, key, samples_per_beat, elapsed as usize),
            },
        ],
{
    let voice = voice_for(InstrumentName::Sawtooth, gain, key, samples_per_beat);
    let node = GainNode {
        node: PlayedWaveform {
            waveform: Waveform::Sawtooth,
            frequency: key.spec_frequency_bits(),
            current_sample: 0,
            sample_count: samples_per_beat,
        },
        value: gain,
    };
    lemma_voice_follows(voice, elapsed);
    lemma_gain_follows(node, elapsed);
    lemma_oscillator_plays(node.node, elapsed);
}

} // verus!
