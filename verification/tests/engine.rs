use std::collections::HashMap;

use dawstream::delay::{DelayReverb, SimpleDelayNode};
use dawstream::gain::GainNode;
use dawstream::input::JsonInput;
use dawstream::kick::Kick;
use dawstream::mixer::CompoundSoundNode;
use dawstream::music_box::MusicBox;
use dawstream::node::{Signal, SoundNode, Waveform};
use dawstream::oscillator::PlayedWaveform;
use dawstream::pitch::MidiKey;
use dawstream::track::{BeatNotes, InstrumentDto, InstrumentName, InstrumentPayloadDto};
use dawstream::voice::VoiceSignal;
use dawstream::streaming::{packet_for, CHUNK_SIZE};
use dawstream::wire::{ChannelData, SoundOutputPacket};

/// Delay lines, found by the way that leads to them.
type Lines = HashMap<Vec<usize>, Vec<f32>>;

fn oscillator(waveform: Waveform, frequency: f32, index: usize) -> f32 {
    let shape = match waveform {
        Waveform::Sawtooth => wavegen::PeriodicFunction::sawtooth(frequency, 1.0, 0.0),
        Waveform::Sine => wavegen::PeriodicFunction::sine(frequency, 1.0, 0.0),
        Waveform::Square => wavegen::PeriodicFunction::square(frequency, 1.0, 0.0),
    };
    let wave = wavegen::Waveform::<f32>::with_components(44100.0, vec![shape]);
    wave.iter().nth(index).unwrap()
}

fn source(signal: &Signal) -> f32 {
    match signal {
        Signal::Wave { waveform, frequency, index, fade } => {
            oscillator(*waveform, f32::from_bits(*frequency), *index) * (*fade as f32 / 400.0) * 0.2
        }
        Signal::Impulse { index, sample_rate } => {
            let time = *index as f32 / *sample_rate as f32;
            f32::sin((2000.0 * f32::exp(-15.0 * time)) * time)
        }
        _ => unreachable!(),
    }
}

fn evaluate(
    signal: &Signal,
    way: &mut Vec<usize>,
    lines: &mut Lines,
    leaf: &dyn Fn(&Signal) -> f32,
) -> f32 {
    match signal {
        Signal::Silence => 0.0,
        Signal::Wave { .. } | Signal::Impulse { .. } => leaf(signal),
        Signal::Scaled { gain, input } => {
            way.push(usize::MAX);
            let value = evaluate(input, way, lines, leaf);
            way.pop();
            value * ((f32::from_bits(*gain) + 30.0) / 30.0)
        }
        Signal::Filling { slot, length, input } => {
            way.push(usize::MAX);
            let value = evaluate(input, way, lines, leaf);
            way.pop();
            let line = lines.entry(way.clone()).or_insert_with(|| vec![0.0; *length]);
            line[*slot] = value;
            value
        }
        Signal::Echoed { slot, length, input } => {
            way.push(usize::MAX);
            let value = evaluate(input, way, lines, leaf);
            way.pop();
            let line = lines.entry(way.clone()).or_insert_with(|| vec![0.0; *length]);
            let delayed = line[*slot] * 0.4;
            line[*slot] = value;
            value + delayed
        }
        Signal::Tail { slot, length } => {
            let line = lines.entry(way.clone()).or_insert_with(|| vec![0.0; *length]);
            line[*slot] * 0.4
        }
        Signal::Sum { left, right } => {
            let first = evaluate(left, way, lines, leaf);
            first + evaluate(right, way, lines, leaf)
        }
        Signal::Part { place, signal } => {
            way.push(*place);
            let value = evaluate(signal, way, lines, leaf);
            way.pop();
            value
        }
    }
}

fn evaluate_tick(tick: &[VoiceSignal], lines: &mut Lines) -> f32 {
    let mut sum = 0.0;
    for voice in tick {
        let mut way = vec![voice.started, voice.ordinal];
        sum += evaluate(&voice.signal, &mut way, lines, &source);
    }
    sum
}

fn a4() -> u32 {
    MidiKey::A4.frequency_bits()
}

fn instrument(name: InstrumentName, gain: f32, notes: Vec<(usize, Vec<MidiKey>)>) -> InstrumentDto {
    InstrumentDto {
        name,
        gain: gain.to_bits(),
        notes: notes.into_iter().map(|(beat, keys)| BeatNotes { beat, keys }).collect(),
    }
}

fn music_box(tempo: usize, instruments: Vec<InstrumentDto>) -> MusicBox {
    assert!(MusicBox::is_playable(tempo, &instruments));
    MusicBox::new(tempo, instruments)
}

/// Pulls the box dry and counts the samples.
fn total_samples(music_box: &mut MusicBox) -> usize {
    let mut total = 0;
    while music_box.next().is_some() {
        total += 1;
    }
    total
}

#[test]
fn oscillator_plays_for_its_duration() {
    let mut node = PlayedWaveform::new(Waveform::Sawtooth, a4(), 1000);
    for index in 0..1000 {
        assert!(!node.ended());
        match node.next_sample() {
            Some(Signal::Wave { waveform, frequency, index: at, .. }) => {
                assert_eq!(waveform, Waveform::Sawtooth);
                assert_eq!(frequency, a4());
                assert_eq!(at, index);
            }
            other => panic!("{other:?}"),
        }
    }
    assert!(node.ended());
    assert_eq!(node.next_sample(), None);
    assert_eq!(node.next_sample(), None);
    assert!(node.ended());
}

#[test]
fn oscillator_fades_in_and_out() {
    let mut node = PlayedWaveform::new(Waveform::Sine, a4(), 44100);
    let mut fades = Vec::new();
    while let Some(Signal::Wave { fade, .. }) = node.next_sample() {
        fades.push(fade);
    }
    assert_eq!(fades.len(), 44100);
    assert_eq!(fades[0], 0);
    assert_eq!(fades[1], 1);
    assert_eq!(fades[399], 399);
    assert_eq!(fades[400], 400);
    assert_eq!(fades[22050], 400);
    assert_eq!(fades[43700], 400);
    assert_eq!(fades[43701], 399);
    assert_eq!(fades[44099], 1);
    for index in 0..400 {
        assert!(fades[index] < fades[index + 1]);
        assert!(fades[43700 + index] > fades[43700 + index + 1 - 1] - 1);
        assert_eq!(fades[index], index);
        assert_eq!(fades[44100 - 1 - index], index + 1);
    }
}

#[test]
fn short_oscillator_fades_to_the_middle() {
    let mut node = PlayedWaveform::new(Waveform::Square, a4(), 6);
    let mut fades = Vec::new();
    while let Some(Signal::Wave { fade, .. }) = node.next_sample() {
        fades.push(fade);
    }
    assert_eq!(fades, vec![0, 1, 2, 3, 2, 1]);
}

#[test]
fn oscillator_envelope_in_samples() {
    let mut node = PlayedWaveform::new(Waveform::Square, a4(), 44100);
    let mut lines = Lines::new();
    let mut magnitudes = Vec::new();
    while let Some(signal) = node.next_sample() {
        magnitudes.push(evaluate(&signal, &mut vec![], &mut lines, &source).abs());
    }
    assert_eq!(magnitudes.len(), 44100);
    for index in 0..400 {
        assert_eq!(magnitudes[index], (index as f32 / 400.0) * 0.2);
        assert!(magnitudes[index] < magnitudes[index + 1]);
        assert!(magnitudes[43700 + index] > magnitudes[43700 + index + 1 - 1] - f32::EPSILON);
        assert_eq!(magnitudes[44099 - index], ((index + 1) as f32 / 400.0) * 0.2);
    }
    assert_eq!(magnitudes[20000], 0.2);
}

#[test]
fn kick_lasts_one_second() {
    let mut node = Kick::new(44100);
    let mut lines = Lines::new();
    let mut count = 0;
    while let Some(signal) = node.next_sample() {
        assert_eq!(signal, Signal::Impulse { index: count, sample_rate: 44100 });
        let value = evaluate(&signal, &mut vec![], &mut lines, &source);
        let time = count as f32 / 44100.0;
        assert_eq!(value, (2000.0 * (-15.0 * time).exp() * time).sin());
        count += 1;
    }
    assert_eq!(count, 44100);
    assert!(node.ended());
    assert_eq!(node.next_sample(), None);
}

#[test]
fn gain_scales_and_passes_the_end_through() {
    let mut node = GainNode::new(PlayedWaveform::new(Waveform::Sawtooth, a4(), 2), (-15.0f32).to_bits());
    assert!(!node.ended());
    let first = node.next_sample().unwrap();
    assert_eq!(
        first,
        Signal::Scaled {
            gain: (-15.0f32).to_bits(),
            input: Box::new(Signal::Wave {
                waveform: Waveform::Sawtooth,
                frequency: a4(),
                index: 0,
                fade: 0
            }),
        }
    );
    let second = node.next_sample().unwrap();
    let mut lines = Lines::new();
    let scaled = evaluate(&second, &mut vec![], &mut lines, &|_| 0.5);
    assert_eq!(scaled, 0.25);
    assert!(node.ended());
    assert_eq!(node.next_sample(), None);
}

#[test]
fn delay_length_is_rounded() {
    let node = SimpleDelayNode::new(Kick::new(10), 44100, 100);
    assert_eq!(node.sample_delay, 4410);
    let node = SimpleDelayNode::new(Kick::new(10), 1000, 1);
    assert_eq!(node.sample_delay, 1);
    let node = SimpleDelayNode::new(Kick::new(10), 15, 100);
    assert_eq!(node.sample_delay, 2);
    let node = SimpleDelayNode::new(Kick::new(10), 14, 100);
    assert_eq!(node.sample_delay, 1);
}

#[test]
fn delay_echoes_an_impulse_once() {
    // An input of 20 samples: a unit impulse, then silence. Delay of 5 samples.
    let impulse = |signal: &Signal| match signal {
        Signal::Wave { index: 0, .. } => 1.0,
        Signal::Wave { .. } => 0.0,
        _ => unreachable!(),
    };
    let input = PlayedWaveform::new(Waveform::Sine, a4(), 20);
    let mut node = SimpleDelayNode::new(input, 1000, 5);
    assert_eq!(node.sample_delay, 5);
    let mut lines = Lines::new();
    let mut output = Vec::new();
    let mut ended_at = None;
    for tick in 0..40 {
        if node.ended() && ended_at.is_none() {
            ended_at = Some(tick);
        }
        if ended_at.is_some() {
            break;
        }
        match node.next_sample() {
            Some(signal) => output.push(Some(evaluate(&signal, &mut vec![], &mut lines, &impulse))),
            None => output.push(None),
        }
    }
    let mut expected = vec![Some(0.0); 25];
    expected[0] = Some(1.0);
    expected[5] = Some(0.4);
    assert_eq!(output, expected);
    // The input ends after 20 samples; the delay only once its tail of 5 has drained.
    assert_eq!(ended_at, Some(25));
    assert_eq!(node.next_sample(), None);
    assert!(node.ended());
}

#[test]
fn delay_signals_name_the_slot() {
    let input = PlayedWaveform::new(Waveform::Sine, a4(), 4);
    let mut node = SimpleDelayNode::new(input, 1000, 3);
    let wave = |index: usize, fade: usize| {
        Box::new(Signal::Wave { waveform: Waveform::Sine, frequency: a4(), index, fade })
    };
    assert_eq!(node.next_sample(), Some(Signal::Filling { slot: 0, length: 3, input: wave(0, 0) }));
    assert_eq!(node.next_sample(), Some(Signal::Filling { slot: 1, length: 3, input: wave(1, 1) }));
    assert_eq!(node.next_sample(), Some(Signal::Filling { slot: 2, length: 3, input: wave(2, 2) }));
    assert_eq!(node.remaining_samples, 3);
    assert_eq!(node.next_sample(), Some(Signal::Echoed { slot: 0, length: 3, input: wave(3, 1) }));
    assert!(!node.ended());
    assert_eq!(node.next_sample(), Some(Signal::Tail { slot: 1, length: 3 }));
    assert_eq!(node.next_sample(), Some(Signal::Tail { slot: 2, length: 3 }));
    assert!(!node.ended());
    assert_eq!(node.next_sample(), Some(Signal::Tail { slot: 0, length: 3 }));
    assert!(node.ended());
    assert_eq!(node.next_sample(), None);
}

#[test]
fn delay_longer_than_its_input_pauses() {
    let input = PlayedWaveform::new(Waveform::Sine, a4(), 2);
    let mut node = SimpleDelayNode::new(input, 1000, 4);
    let mut present = Vec::new();
    while !node.ended() {
        present.push(node.next_sample().is_some());
    }
    assert_eq!(present, vec![true, true, false, false, true, true, true, true]);
}

#[test]
fn reverb_has_three_lines() {
    let input = PlayedWaveform::new(Waveform::Sine, a4(), 44100);
    let mut node = DelayReverb::new(input, 44100);
    assert_eq!(node.node.sample_delay, 13230);
    assert_eq!(node.node.node.sample_delay, 8820);
    assert_eq!(node.node.node.node.sample_delay, 4410);
    let mut count = 0;
    while !node.ended() {
        assert!(node.next_sample().is_some());
        count += 1;
    }
    assert_eq!(count, 44100 + 4410 + 8820 + 13230);
    assert_eq!(node.next_sample(), None);
}

#[test]
fn mixer_adds_what_is_present() {
    let short = PlayedWaveform::new(Waveform::Sine, a4(), 1);
    let long = PlayedWaveform::new(Waveform::Square, a4(), 3);
    let mut mixer = CompoundSoundNode::new(vec![short, long]);
    assert!(!mixer.ended());
    let both = mixer.next_sample().unwrap();
    let mut lines = Lines::new();
    assert_eq!(evaluate(&both, &mut vec![], &mut lines, &|_| 0.25), 0.5);
    let one = mixer.next_sample().unwrap();
    assert_eq!(
        one,
        Signal::Sum {
            left: Box::new(Signal::Silence),
            right: Box::new(Signal::Part {
                place: 1,
                signal: Box::new(Signal::Wave {
                    waveform: Waveform::Square,
                    frequency: a4(),
                    index: 1,
                    fade: 1
                }),
            }),
        }
    );
    assert_eq!(evaluate(&one, &mut vec![], &mut lines, &|_| 0.25), 0.25);
    assert!(!mixer.ended());
    assert!(mixer.next_sample().is_some());
    assert!(mixer.ended());
    assert_eq!(mixer.next_sample(), None);
}

#[test]
fn empty_mixer_has_ended() {
    let mut mixer: CompoundSoundNode<Kick> = CompoundSoundNode::new(vec![]);
    assert!(mixer.ended());
    assert_eq!(mixer.next_sample(), None);
}

#[test]
fn instrument_names() {
    assert_eq!(InstrumentName::from_name("sawtooth"), Some(InstrumentName::Sawtooth));
    assert_eq!(InstrumentName::from_name("sine"), Some(InstrumentName::Sine));
    assert_eq!(InstrumentName::from_name("square"), Some(InstrumentName::Square));
    assert_eq!(InstrumentName::from_name("kick"), Some(InstrumentName::Kick));
    assert_eq!(InstrumentName::from_name("Sine"), None);
    assert_eq!(InstrumentName::from_name(""), None);
}

#[test]
fn samples_per_beat_follow_the_tempo() {
    assert_eq!(music_box(60, vec![]).samples_per_beat, 44100);
    assert_eq!(music_box(120, vec![]).samples_per_beat, 22050);
    assert_eq!(music_box(20, vec![]).samples_per_beat, 132300);
    assert_eq!(music_box(70, vec![]).samples_per_beat, 37800);
    assert_eq!(music_box(7, vec![]).samples_per_beat, 378000);
    assert_eq!(music_box(2_646_000, vec![]).samples_per_beat, 1);
}

#[test]
fn unplayable_tracks() {
    assert!(!MusicBox::is_playable(0, &vec![]));
    assert!(!MusicBox::is_playable(2_646_001, &vec![]));
    let far = vec![instrument(InstrumentName::Sine, 0.0, vec![(usize::MAX, vec![MidiKey::A4])])];
    assert!(!MusicBox::is_playable(60, &far));
    let near = vec![instrument(InstrumentName::Sine, 0.0, vec![(1_000_000, vec![MidiKey::A4])])];
    assert!(MusicBox::is_playable(2_646_000, &near));
}

#[test]
fn empty_track_is_a_single_end_packet() {
    let mut empty = music_box(60, vec![]);
    assert_eq!(empty.chunk(CHUNK_SIZE), Err(vec![]));
    assert_eq!(empty.next(), None);
    let mut silent = music_box(
        60,
        vec![
            instrument(InstrumentName::Sine, 0.0, vec![]),
            instrument(InstrumentName::Kick, 0.0, vec![]),
        ],
    );
    assert_eq!(silent.chunk(CHUNK_SIZE), Err(vec![]));
    assert!(silent.instruments.is_empty());
    let packet = packet_for(Err(vec![]));
    assert_eq!(packet, SoundOutputPacket::End { length: 0, channel_data: None });
    assert_eq!(packet.encode(), vec![0, 0, 0]);
}

#[test]
fn single_sawtooth_note_is_one_data_packet_and_an_empty_end() {
    let track = vec![instrument(InstrumentName::Sawtooth, 0.0, vec![(0, vec![MidiKey::A4])])];
    let mut music_box = music_box(60, track);
    assert_eq!(music_box.samples_per_beat, 44100);
    let mut lines = Lines::new();

    let first = music_box.chunk(CHUNK_SIZE).expect("a full chunk");
    assert_eq!(first.len(), 44100);
    let samples: Vec<f32> = first.iter().map(|tick| evaluate_tick(tick, &mut lines)).collect();
    for (index, tick) in first.iter().enumerate() {
        assert_eq!(tick.len(), 1);
        assert_eq!((tick[0].started, tick[0].ordinal), (0, 0));
        let fade = index.min(44100 - index).min(400);
        assert_eq!(
            tick[0].signal,
            Signal::Scaled {
                gain: 0.0f32.to_bits(),
                input: Box::new(Signal::Wave {
                    waveform: Waveform::Sawtooth,
                    frequency: 0x43DC_0000,
                    index,
                    fade,
                }),
            }
        );
    }
    let sounding = samples.iter().filter(|sample| **sample != 0.0).count();
    assert!(sounding >= 44000, "{sounding}");
    assert!(samples.iter().all(|sample| sample.abs() <= 0.2));
    assert_eq!(samples[0], 0.0);
    assert_eq!(samples[1], oscillator(Waveform::Sawtooth, 440.0, 1) * (1.0 / 400.0) * 0.2);
    assert_eq!(samples[1000], oscillator(Waveform::Sawtooth, 440.0, 1000) * 0.2);

    let rest = music_box.chunk(CHUNK_SIZE).expect_err("the end of the stream");
    assert!(rest.is_empty());
    assert_eq!(music_box.next(), None);

    let data = packet_for(Ok(samples.iter().map(|sample| sample.to_bits()).collect()));
    match &data {
        SoundOutputPacket::Data { channel_data: ChannelData::Mono(mono) } => {
            assert_eq!(mono.len(), 44100)
        }
        other => panic!("{other:?}"),
    }
    assert_eq!(data.encode().len(), 2 + 4 * 44100);
    assert_eq!(SoundOutputPacket::decode(&data.encode(), CHUNK_SIZE), Ok(data));
    let end = packet_for(Err(vec![]));
    assert_eq!(end, SoundOutputPacket::End { length: 0, channel_data: None });
}

#[test]
fn sawtooth_note_lasts_one_beat_at_any_tempo() {
    for tempo in [20, 60, 97, 120, 600] {
        let track = vec![instrument(InstrumentName::Sawtooth, -3.0, vec![(0, vec![MidiKey::C3])])];
        let mut music_box = music_box(tempo, track);
        assert_eq!(total_samples(&mut music_box), 2_646_000 / tempo);
    }
}

#[test]
fn reverberated_note_rings_on() {
    let track = vec![instrument(InstrumentName::Sine, 0.0, vec![(0, vec![MidiKey::A4])])];
    let mut music_box = music_box(60, track);
    let first = music_box.chunk(CHUNK_SIZE).expect("a full chunk");
    assert_eq!(first.len(), 44100);
    let rest = music_box.chunk(CHUNK_SIZE).expect_err("the end of the stream");
    assert_eq!(rest.len(), 4410 + 8820 + 13230);
    let total = first.len() + rest.len();
    assert_eq!(total / CHUNK_SIZE, 1);
    assert_eq!(total % CHUNK_SIZE, 26460);
    let mut lines = Lines::new();
    let mut samples = Vec::new();
    for tick in first.iter().chain(rest.iter()) {
        samples.push(evaluate_tick(tick, &mut lines));
    }
    // Before the first line wraps, the reverb passes the oscillator through.
    assert_eq!(samples[1000], oscillator(Waveform::Sine, 440.0, 1000) * 0.2);
    // Then the sample of 4410 ticks before comes in at 0.4.
    let dry = oscillator(Waveform::Sine, 440.0, 5000) * 0.2;
    let echo = oscillator(Waveform::Sine, 440.0, 590) * 0.2 * 0.4;
    assert_eq!(samples[5000], dry + echo);
    let packet = packet_for(Err(samples[44100..].iter().map(|sample| sample.to_bits()).collect()));
    match &packet {
        SoundOutputPacket::End { length, channel_data: Some(ChannelData::Mono(mono)) } => {
            assert_eq!(*length, 26460);
            assert_eq!(mono.len(), 26460);
        }
        other => panic!("{other:?}"),
    }
    assert_eq!(SoundOutputPacket::decode(&packet.encode(), CHUNK_SIZE), Ok(packet));
}

#[test]
fn stream_is_full_chunks_and_a_residual() {
    // Square notes on beats 0 and 3 at 90 beats per minute.
    let track = vec![instrument(
        InstrumentName::Square,
        0.0,
        vec![(0, vec![MidiKey::A4]), (3, vec![MidiKey::E4, MidiKey::A4])],
    )];
    let mut counted = music_box(90, track.clone());
    let total = total_samples(&mut counted);
    assert_eq!(total, 3 * 29400 + 29400 + 26460);

    let mut music_box = music_box(90, track);
    let mut full = 0;
    let residual = loop {
        match music_box.chunk(CHUNK_SIZE) {
            Ok(chunk) => {
                assert_eq!(chunk.len(), CHUNK_SIZE);
                full += 1;
            }
            Err(rest) => break rest.len(),
        }
    };
    assert_eq!(full, total / CHUNK_SIZE);
    assert_eq!(residual, total % CHUNK_SIZE);
    assert_eq!(music_box.chunk(CHUNK_SIZE), Err(vec![]));
}

#[test]
fn kick_outlasts_a_short_beat() {
    let track = vec![instrument(InstrumentName::Kick, 0.0, vec![(0, vec![MidiKey::A0])])];
    let mut music_box = music_box(120, track);
    assert_eq!(music_box.samples_per_beat, 22050);
    assert_eq!(total_samples(&mut music_box), 44100);
}

#[test]
fn notes_start_on_their_beat_in_order() {
    let track = vec![
        instrument(
            InstrumentName::Sawtooth,
            0.0,
            vec![(2, vec![MidiKey::A4]), (0, vec![MidiKey::C3, MidiKey::E3])],
        ),
        instrument(InstrumentName::Kick, -6.0, vec![(0, vec![MidiKey::A0]), (5, vec![])]),
    ];
    let mut music_box = music_box(2_646_000 / 10, track);
    assert_eq!(music_box.samples_per_beat, 10);

    let tick = music_box.next().unwrap();
    let voices: Vec<(usize, usize)> = tick.iter().map(|voice| (voice.started, voice.ordinal)).collect();
    assert_eq!(voices, vec![(0, 0), (0, 1), (0, 2)]);
    match &tick[1].signal {
        Signal::Scaled { input, .. } => match **input {
            Signal::Wave { frequency, index: 0, .. } => {
                assert_eq!(frequency, MidiKey::E3.frequency_bits())
            }
            ref other => panic!("{other:?}"),
        },
        other => panic!("{other:?}"),
    }
    assert_eq!(
        tick[2].signal,
        Signal::Scaled {
            gain: (-6.0f32).to_bits(),
            input: Box::new(Signal::Impulse { index: 0, sample_rate: 44100 }),
        }
    );
    // The notes of beat 0 have left the schedule; the rest waits.
    assert_eq!(music_box.instruments.len(), 2);
    assert_eq!(music_box.instruments[0].notes, vec![BeatNotes { beat: 2, keys: vec![MidiKey::A4] }]);
    assert_eq!(music_box.instruments[1].notes, vec![BeatNotes { beat: 5, keys: vec![] }]);
    assert_eq!(music_box.current_sample, 1);

    for _ in 1..10 {
        assert_eq!(music_box.next().unwrap().len(), 3);
    }
    // Beat 1: the two sawtooth notes are over, the kick goes on.
    let tick = music_box.next().unwrap();
    assert_eq!(tick.len(), 1);
    assert_eq!(music_box.playing_instruments.len(), 1);
    for _ in 11..20 {
        assert_eq!(music_box.next().unwrap().len(), 1);
    }
    // Beat 2: the late note starts.
    let tick = music_box.next().unwrap();
    let voices: Vec<(usize, usize)> = tick.iter().map(|voice| (voice.started, voice.ordinal)).collect();
    assert_eq!(voices, vec![(0, 2), (20, 0)]);
    assert_eq!(music_box.instruments.len(), 1);
    // The empty entry on beat 5 keeps the stream alive until then.
    let rest = total_samples(&mut music_box);
    assert_eq!(21 + rest, 44100);
}

#[test]
fn silence_between_notes_is_part_of_the_stream() {
    let track = vec![instrument(
        InstrumentName::Sawtooth,
        0.0,
        vec![(0, vec![MidiKey::A4]), (3, vec![MidiKey::A4])],
    )];
    let mut music_box = music_box(2_646_000 / 100, track);
    let mut lines = Lines::new();
    let mut sizes = Vec::new();
    let mut samples = Vec::new();
    while let Some(tick) = music_box.next() {
        sizes.push(tick.len());
        samples.push(evaluate_tick(&tick, &mut lines));
    }
    assert_eq!(sizes.len(), 400);
    assert!(sizes[..100].iter().all(|size| *size == 1));
    assert!(sizes[100..300].iter().all(|size| *size == 0));
    assert!(sizes[300..].iter().all(|size| *size == 1));
    assert!(samples[100..300].iter().all(|sample| *sample == 0.0));
}

#[test]
fn short_chunk_reports_the_end_at_once() {
    let track = vec![instrument(InstrumentName::Sawtooth, 0.0, vec![(0, vec![MidiKey::A4])])];
    let mut music_box = music_box(2_646_000 / 25, track);
    assert_eq!(music_box.chunk(10).map(|chunk| chunk.len()), Ok(10));
    assert_eq!(music_box.chunk(15).map(|chunk| chunk.len()), Ok(15));
    assert_eq!(music_box.chunk(1).map_err(|rest| rest.len()), Err(0));
    let track = vec![instrument(InstrumentName::Sawtooth, 0.0, vec![(0, vec![MidiKey::A4])])];
    let mut music_box = MusicBox::new(2_646_000 / 25, track);
    assert_eq!(music_box.chunk(20).map(|chunk| chunk.len()), Ok(20));
    assert_eq!(music_box.chunk(20).map(|chunk| chunk.len()).map_err(|rest| rest.len()), Err(5));
    assert_eq!(music_box.chunk(0).map(|chunk| chunk.len()), Ok(0));
}

#[test]
fn packets_for_chunks() {
    let full = packet_for(Ok(vec![1, 2, 3]));
    assert_eq!(full, SoundOutputPacket::Data { channel_data: ChannelData::Mono(vec![1, 2, 3]) });
    let short = packet_for(Err(vec![4, 5]));
    assert_eq!(
        short,
        SoundOutputPacket::End { length: 2, channel_data: Some(ChannelData::Mono(vec![4, 5])) }
    );
    assert_eq!(short.encode(), vec![0, 2, 0, 1, 4, 0, 0, 0, 5, 0, 0, 0]);
    let longest = packet_for(Err(vec![0; 65535]));
    match longest {
        SoundOutputPacket::End { length, channel_data: Some(_) } => assert_eq!(length, 65535),
        other => panic!("{other:?}"),
    }
}

#[test]
fn fade_level_is_the_least_of_the_three_ramps() {
    for duration in [1usize, 2, 7, 399, 400, 401, 799, 800, 801, 44100] {
        let mut node = PlayedWaveform::new(Waveform::Sine, a4(), duration);
        let mut elapsed = 0;
        while let Some(Signal::Wave { fade, .. }) = node.next_sample() {
            let smoother = 1.0f32
                .min(elapsed as f32 / 400.0)
                .min((duration - elapsed) as f32 / 400.0);
            assert_eq!(fade as f32 / 400.0, smoother);
            elapsed += 1;
        }
        assert_eq!(elapsed, duration);
    }
}

#[test]
fn reverb_of_a_short_note_pauses_and_rings_on() {
    // At 1000 beats per minute a beat is shorter than the first line of the reverb.
    let track = vec![instrument(InstrumentName::Sine, 0.0, vec![(0, vec![MidiKey::A4])])];
    let mut music_box = music_box(1000, track);
    assert_eq!(music_box.samples_per_beat, 2646);
    let mut sizes = Vec::new();
    while let Some(tick) = music_box.next() {
        sizes.push(tick.len());
    }
    assert_eq!(sizes.len(), 4410 + 4410 + 8820 + 13230);
    assert!(sizes[..2646].iter().all(|size| *size == 1));
    assert!(sizes[2646..4410].iter().all(|size| *size == 0));
    assert!(sizes[4410..].iter().all(|size| *size == 1));
}

#[test]
fn note_lengths_by_instrument() {
    for (name, length) in [
        (InstrumentName::Sawtooth, 29400),
        (InstrumentName::Sine, 29400 + 26460),
        (InstrumentName::Square, 29400 + 26460),
        (InstrumentName::Kick, 44100),
    ] {
        let track = vec![instrument(name, 0.0, vec![(0, vec![MidiKey::G4])])];
        let mut music_box = music_box(90, track);
        assert_eq!(total_samples(&mut music_box), length);
    }
}

#[test]
fn voices_are_told_apart() {
    let track = vec![
        instrument(InstrumentName::Sine, 0.0, vec![(0, vec![MidiKey::A4, MidiKey::C4]), (1, vec![MidiKey::E4])]),
        instrument(InstrumentName::Square, 0.0, vec![(1, vec![MidiKey::A3, MidiKey::A2])]),
    ];
    let mut music_box = music_box(500, track);
    assert_eq!(music_box.samples_per_beat, 5292);
    let mut seen = std::collections::HashSet::new();
    while let Some(tick) = music_box.next() {
        let mut ids = std::collections::HashSet::new();
        for voice in &tick {
            assert!(ids.insert((voice.started, voice.ordinal)));
            seen.insert((voice.started, voice.ordinal));
        }
    }
    let mut seen: Vec<(usize, usize)> = seen.into_iter().collect();
    seen.sort();
    assert_eq!(seen, vec![(0, 0), (0, 1), (5292, 0), (5292, 1), (5292, 2)]);
}

#[test]
fn box_from_a_payload() {
    let payload = InstrumentPayloadDto {
        tempo: 120,
        instruments: vec![instrument(InstrumentName::Kick, 0.0, vec![(1, vec![MidiKey::A0])])],
    };
    let mut music_box = MusicBox::from_payload(payload).expect("a playable track");
    assert_eq!(music_box.samples_per_beat, 22050);
    assert_eq!(music_box.current_sample, 0);
    assert!(music_box.playing_instruments.is_empty());
    assert_eq!(total_samples(&mut music_box), 22050 + 44100);

    let stopped = InstrumentPayloadDto { tempo: 0, instruments: vec![] };
    assert_eq!(MusicBox::from_payload(stopped), None);
    let far = InstrumentPayloadDto {
        tempo: 60,
        instruments: vec![instrument(InstrumentName::Kick, 0.0, vec![(usize::MAX / 2, vec![])])],
    };
    assert_eq!(MusicBox::from_payload(far), None);
}

#[test]
fn json_input_wraps_its_payload() {
    let input = JsonInput(InstrumentPayloadDto { tempo: 90, instruments: vec![] });
    assert_eq!(input.0.tempo, 90);
    assert_eq!(input.into_inner(), InstrumentPayloadDto { tempo: 90, instruments: vec![] });
}

/// A delay written out directly on floats, with its own buffer.
struct DirectDelay {
    buffer: Vec<f32>,
    current: usize,
    remaining: usize,
}

impl DirectDelay {
    fn new(length: usize) -> Self {
        DirectDelay { buffer: vec![0.0; length], current: 0, remaining: 0 }
    }

    fn next(&mut self, input: Option<f32>) -> Option<f32> {
        let length = self.buffer.len();
        let slot = self.current % length;
        let output = if self.current < length {
            if let Some(sample) = input {
                self.buffer[slot] = sample;
            }
            self.remaining += 1;
            input
        } else {
            let delayed = self.buffer[slot] * 0.4;
            if let Some(sample) = input {
                self.buffer[slot] = sample;
                Some(sample + delayed)
            } else if self.remaining > 0 {
                self.remaining -= 1;
                Some(delayed)
            } else {
                None
            }
        };
        self.current += 1;
        output
    }
}

/// One reverberated note, rendered directly on floats.
fn direct_reverberated_note(waveform: Waveform, frequency: f32, duration: usize, gain: f32) -> Vec<f32> {
    let mut lines = [DirectDelay::new(4410), DirectDelay::new(8820), DirectDelay::new(13230)];
    let factor = (gain + 30.0) / 30.0;
    let mut elapsed = 0;
    let mut samples = Vec::new();
    loop {
        let ended = elapsed >= duration && lines.iter().all(|line| line.remaining == 0);
        if ended {
            return samples;
        }
        let mut sample = if elapsed < duration {
            let smoother = 1.0f32
                .min(elapsed as f32 / 400.0)
                .min((duration - elapsed) as f32 / 400.0);
            Some(oscillator(waveform, frequency, elapsed) * smoother * 0.2)
        } else {
            None
        };
        for line in lines.iter_mut() {
            sample = line.next(sample);
        }
        samples.push(sample.map(|sample| sample * factor).unwrap_or(0.0));
        elapsed += 1;
    }
}

#[test]
fn engine_and_direct_rendering_agree() {
    for (tempo, name, waveform, key, gain) in [
        (60, InstrumentName::Sine, Waveform::Sine, MidiKey::A4, 0.0),
        (1000, InstrumentName::Square, Waveform::Square, MidiKey::E2, -12.0),
        (400, InstrumentName::Sine, Waveform::Sine, MidiKey::Gb6, 4.5),
    ] {
        let track = vec![instrument(name, gain, vec![(0, vec![key])])];
        let mut music_box = music_box(tempo, track);
        let duration = music_box.samples_per_beat;
        let mut lines = Lines::new();
        let mut samples = Vec::new();
        while let Some(tick) = music_box.next() {
            samples.push(evaluate_tick(&tick, &mut lines));
        }
        let direct = direct_reverberated_note(
            waveform,
            f32::from_bits(key.frequency_bits()),
            duration,
            gain,
        );
        assert_eq!(samples.len(), direct.len(), "tempo {tempo}");
        for (index, (left, right)) in samples.iter().zip(direct.iter()).enumerate() {
            assert_eq!(left, right, "tempo {tempo}, sample {index}");
        }
    }
}
