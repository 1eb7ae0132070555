use dawstream::pitch::MidiKey;

fn hertz(key: MidiKey) -> f32 {
    f32::from_bits(key.frequency_bits())
}

#[test]
fn concert_pitch_is_440_hertz() {
    assert_eq!(MidiKey::A4.index(), 69);
    assert_eq!(MidiKey::A4.frequency_bits(), 0x43DC_0000);
    assert_eq!(hertz(MidiKey::A4), 440.0);
}

#[test]
fn keys_run_from_21_to_107() {
    assert_eq!(MidiKey::A0.index(), 21);
    assert_eq!(MidiKey::B7.index(), 107);
    assert_eq!(MidiKey::from_index(20), None);
    assert_eq!(MidiKey::from_index(108), None);
    assert_eq!(MidiKey::from_index(21), Some(MidiKey::A0));
    assert_eq!(MidiKey::from_index(60), Some(MidiKey::C3));
    assert_eq!(MidiKey::from_index(107), Some(MidiKey::B7));
    let mut count = 0;
    for index in 0..=255u8 {
        if let Some(key) = MidiKey::from_index(index) {
            assert_eq!(key.index(), index);
            count += 1;
        }
    }
    assert_eq!(count, 87);
}

#[test]
fn frequencies_follow_equal_temperament() {
    for index in 21..=107u8 {
        let key = MidiKey::from_index(index).unwrap();
        let exact = 2.0f64.powf((index as f64 - 69.0) / 12.0) * 440.0;
        assert_eq!(hertz(key), exact as f32, "key {index}");
    }
}

#[test]
fn lowest_and_highest_frequency() {
    assert_eq!(hertz(MidiKey::A0), 27.5);
    assert_eq!(hertz(MidiKey::A7), 3520.0);
    assert!((hertz(MidiKey::B7) - 3951.0664).abs() < 0.001);
    assert!((hertz(MidiKey::C3) - 261.62555).abs() < 0.0001);
}

#[test]
fn an_octave_doubles_the_frequency() {
    for index in 21..=95u8 {
        let lower = MidiKey::from_index(index).unwrap();
        let upper = MidiKey::from_index(index + 12).unwrap();
        assert_eq!(hertz(upper), 2.0 * hertz(lower));
        assert_eq!(upper.frequency_bits(), lower.frequency_bits() + 0x0080_0000);
    }
}

#[test]
fn frequency_rises_with_the_index() {
    for index in 21..107u8 {
        let lower = MidiKey::from_index(index).unwrap();
        let upper = MidiKey::from_index(index + 1).unwrap();
        assert!(hertz(lower) < hertz(upper));
        assert!(lower < upper);
    }
}

#[test]
fn raised_keys() {
    assert!(!MidiKey::A0.is_step_key());
    assert!(MidiKey::Bb0.is_step_key());
    assert!(!MidiKey::B0.is_step_key());
    assert!(!MidiKey::C0.is_step_key());
    assert!(MidiKey::Db0.is_step_key());
    assert!(!MidiKey::D0.is_step_key());
    assert!(MidiKey::Eb0.is_step_key());
    assert!(!MidiKey::E0.is_step_key());
    assert!(!MidiKey::F0.is_step_key());
    assert!(MidiKey::Gb0.is_step_key());
    assert!(!MidiKey::G0.is_step_key());
    assert!(MidiKey::Ab0.is_step_key());
    assert!(MidiKey::Ab6.is_step_key());
    assert!(!MidiKey::B7.is_step_key());
    let raised = (21..=107u8)
        .filter(|index| MidiKey::from_index(*index).unwrap().is_step_key())
        .count();
    assert_eq!(raised, 36);
}
