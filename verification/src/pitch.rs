//! The pitch table: the keys of the keyboard and their frequencies.
//!
//! Keys are numbered as in MIDI, from 21 for the lowest A to 107 for the
//! highest B. A key is named by its note and by the number of the octave it
//! lies in, counted in steps of twelve keys from the lowest A. Tuning is
//! twelve-tone equal temperament with A4 at 440 Hz.

use vstd::prelude::*;

verus! {

/// Number of the lowest key.
pub const LOWEST_KEY: u8 = 21;

/// Number of the highest key.
pub const HIGHEST_KEY: u8 = 107;

/// What one octave up adds to the bits of a frequency: one in the exponent
/// field, which doubles the value.
pub const OCTAVE_BITS: u32 = 0x0080_0000;

/// A key of the keyboard.
#[derive(Copy, Clone, PartialEq, PartialOrd, Eq, Ord, Debug, Hash)]
pub enum MidiKey {
    A0,
    Bb0,
    B0,
    C0,
    Db0,
    D0,
    Eb0,
    E0,
    F0,
    Gb0,
    G0,
    Ab0,
    A1,
    Bb1,
    B1,
    C1,
    Db1,
    D1,
    Eb1,
    E1,
    F1,
    Gb1,
    G1,
    Ab1,
    A2,
    Bb2,
    B2,
    C2,
    Db2,
    D2,
    Eb2,
    E2,
    F2,
    Gb2,
    G2,
    Ab2,
    A3,
    Bb3,
    B3,
    C3,
    Db3,
    D3,
    Eb3,
    E3,
    F3,
    Gb3,
    G3,
    Ab3,
    A4,
    Bb4,
    B4,
    C4,
    Db4,
    D4,
    Eb4,
    E4,
    F4,
    Gb4,
    G4,
    Ab4,
    A5,
    Bb5,
    B5,
    C5,
    Db5,
    D5,
    Eb5,
    E5,
    F5,
    Gb5,
    G5,
    Ab5,
    A6,
    Bb6,
    B6,
    C6,
    Db6,
    D6,
    Eb6,
    E6,
    F6,
    Gb6,
    G6,
    Ab6,
    A7,
    Bb7,
    B7,
}

/// The frequency of note `note` (0 for A up to 11 for A flat) in the lowest
/// octave, as the bits of its single-precision encoding.
pub open spec fn lowest_octave_bits(note: int) -> u32 {
    if note == 0 {
        0x41DC0000
    } else if note == 1 {
        0x41E914F6
    } else if note == 2 {
        0x41F6F110
    } else if note == 3 {
        0x4202D013
    } else if note == 4 {
        0x420A9760
    } else if note == 5 {
        0x4212D517
    } else if note == 6 {
        0x421B9041
    } else if note == 7 {
        0x4224D054
    } else if note == 8 {
        0x422E9D37
    } else if note == 9 {
        0x4238FF49
    } else if note == 10 {
        0x4243FF6A
    } else {
        0x424FA700
    }
}

impl MidiKey {
    /// The number of the key.
    pub open spec fn spec_index(self) -> int {
        match self {
            MidiKey::A0 => 21,
            MidiKey::Bb0 => 22,
            MidiKey::B0 => 23,
            MidiKey::C0 => 24,
            MidiKey::Db0 => 25,
            MidiKey::D0 => 26,
            MidiKey::Eb0 => 27,
            MidiKey::E0 => 28,
            MidiKey::F0 => 29,
            MidiKey::Gb0 => 30,
            MidiKey::G0 => 31,
            MidiKey::Ab0 => 32,
            MidiKey::A1 => 33,
            MidiKey::Bb1 => 34,
            MidiKey::B1 => 35,
            MidiKey::C1 => 36,
            MidiKey::Db1 => 37,
            MidiKey::D1 => 38,
            MidiKey::Eb1 => 39,
            MidiKey::E1 => 40,
            MidiKey::F1 => 41,
            MidiKey::Gb1 => 42,
            MidiKey::G1 => 43,
            MidiKey::Ab1 => 44,
            MidiKey::A2 => 45,
            MidiKey::Bb2 => 46,
            MidiKey::B2 => 47,
            MidiKey::C2 => 48,
            MidiKey::Db2 => 49,
            MidiKey::D2 => 50,
            MidiKey::Eb2 => 51,
            MidiKey::E2 => 52,
            MidiKey::F2 => 53,
            MidiKey::Gb2 => 54,
            MidiKey::G2 => 55,
            MidiKey::Ab2 => 56,
            MidiKey::A3 => 57,
            MidiKey::Bb3 => 58,
            MidiKey::B3 => 59,
            MidiKey::C3 => 60,
            MidiKey::Db3 => 61,
            MidiKey::D3 => 62,
            MidiKey::Eb3 => 63,
            MidiKey::E3 => 64,
            MidiKey::F3 => 65,
            MidiKey::Gb3 => 66,
            MidiKey::G3 => 67,
            MidiKey::Ab3 => 68,
            MidiKey::A4 => 69,
            MidiKey::Bb4 => 70,
            MidiKey::B4 => 71,
            MidiKey::C4 => 72,
            MidiKey::Db4 => 73,
            MidiKey::D4 => 74,
            MidiKey::Eb4 => 75,
            MidiKey::E4 => 76,
            MidiKey::F4 => 77,
            MidiKey::Gb4 => 78,
            MidiKey::G4 => 79,
            MidiKey::Ab4 => 80,
            MidiKey::A5 => 81,
            MidiKey::Bb5 => 82,
            MidiKey::B5 => 83,
            MidiKey::C5 => 84,
            MidiKey::Db5 => 85,
            MidiKey::D5 => 86,
            MidiKey::Eb5 => 87,
            MidiKey::E5 => 88,
            MidiKey::F5 => 89,
            MidiKey::Gb5 => 90,
            MidiKey::G5 => 91,
            MidiKey::Ab5 => 92,
            MidiKey::A6 => 93,
            MidiKey::Bb6 => 94,
            MidiKey::B6 => 95,
            MidiKey::C6 => 96,
            MidiKey::Db6 => 97,
            MidiKey::D6 => 98,
            MidiKey::Eb6 => 99,
            MidiKey::E6 => 100,
            MidiKey::F6 => 101,
            MidiKey::Gb6 => 102,
            MidiKey::G6 => 103,
            MidiKey::Ab6 => 104,
            MidiKey::A7 => 105,
            MidiKey::Bb7 => 106,
            MidiKey::B7 => 107,
        }
    }

    /// The note of the key within its octave: 0 for A up to 11 for A flat.
    pub open spec fn note(self) -> int {
        (self.spec_index() - 21) % 12
    }

    /// The octave of the key, counted from the lowest A.
    pub open spec fn octave(self) -> int {
        (self.spec_index() - 21) / 12
    }

    /// The frequency of the key, as the bits of its single-precision
    /// encoding: that of its note in the lowest octave, doubled once per
    /// octave.
    pub open spec fn spec_frequency_bits(self) -> u32 {
        (lowest_octave_bits(self.note()) + self.octave() * OCTAVE_BITS) as u32
    }

    /// The key is one of the five raised keys of its octave.
    pub open spec fn spec_is_step_key(self) -> bool {
        let note = self.note();
        note == 1 || note == 4 || note == 6 || note == 9 || note == 11
    }

    /// The number of the key, from 21 to 107.
    pub fn index(self) -> (index: u8)
        ensures
            index == self.spec_index(),
            LOWEST_KEY <= index <= HIGHEST_KEY,
    {
        match self {
            MidiKey::A0 => 21,
            MidiKey::Bb0 => 22,
            MidiKey::B0 => 23,
            MidiKey::C0 => 24,
            MidiKey::Db0 => 25,
            MidiKey::D0 => 26,
            MidiKey::Eb0 => 27,
            MidiKey::E0 => 28,
            MidiKey::F0 => 29,
            MidiKey::Gb0 => 30,
            MidiKey::G0 => 31,
            MidiKey::Ab0 => 32,
            MidiKey::A1 => 33,
            MidiKey::Bb1 => 34,
            MidiKey::B1 => 35,
            MidiKey::C1 => 36,
            MidiKey::Db1 => 37,
            MidiKey::D1 => 38,
            MidiKey::Eb1 => 39,
            MidiKey::E1 => 40,
            MidiKey::F1 => 41,
            MidiKey::Gb1 => 42,
            MidiKey::G1 => 43,
            MidiKey::Ab1 => 44,
            MidiKey::A2 => 45,
            MidiKey::Bb2 => 46,
            MidiKey::B2 => 47,
            MidiKey::C2 => 48,
            MidiKey::Db2 => 49,
            MidiKey::D2 => 50,
            MidiKey::Eb2 => 51,
            MidiKey::E2 => 52,
            MidiKey::F2 => 53,
            MidiKey::Gb2 => 54,
            MidiKey::G2 => 55,
            MidiKey::Ab2 => 56,
            MidiKey::A3 => 57,
            MidiKey::Bb3 => 58,
            MidiKey::B3 => 59,
            MidiKey::C3 => 60,
            MidiKey::Db3 => 61,
            MidiKey::D3 => 62,
            MidiKey::Eb3 => 63,
            MidiKey::E3 => 64,
            MidiKey::F3 => 65,
            MidiKey::Gb3 => 66,
            MidiKey::G3 => 67,
            MidiKey::Ab3 => 68,
            MidiKey::A4 => 69,
            MidiKey::Bb4 => 70,
            MidiKey::B4 => 71,
            MidiKey::C4 => 72,
            MidiKey::Db4 => 73,
            MidiKey::D4 => 74,
            MidiKey::Eb4 => 75,
            MidiKey::E4 => 76,
            MidiKey::F4 => 77,
            MidiKey::Gb4 => 78,
            MidiKey::G4 => 79,
            MidiKey::Ab4 => 80,
            MidiKey::A5 => 81,
            MidiKey::Bb5 => 82,
            MidiKey::B5 => 83,
            MidiKey::C5 => 84,
            MidiKey::Db5 => 85,
            MidiKey::D5 => 86,
            MidiKey::Eb5 => 87,
            MidiKey::E5 => 88,
            MidiKey::F5 => 89,
            MidiKey::Gb5 => 90,
            MidiKey::G5 => 91,
            MidiKey::Ab5 => 92,
            MidiKey::A6 => 93,
            MidiKey::Bb6 => 94,
            MidiKey::B6 => 95,
            MidiKey::C6 => 96,
            MidiKey::Db6 => 97,
            MidiKey::D6 => 98,
            MidiKey::Eb6 => 99,
            MidiKey::E6 => 100,
            MidiKey::F6 => 101,
            MidiKey::Gb6 => 102,
            MidiKey::G6 => 103,
            MidiKey::Ab6 => 104,
            MidiKey::A7 => 105,
            MidiKey::Bb7 => 106,
            MidiKey::B7 => 107,
        }
    }

    /// The key with the given number, if there is one.
    pub fn from_index(index: u8) -> (key: Option<MidiKey>)
        ensures
            key.is_some() <==> LOWEST_KEY <= index <= HIGHEST_KEY,
            key matches Some(found) ==> found.spec_index() == index,
    {
        match index {
            21 => Some(MidiKey::A0),
            22 => Some(MidiKey::Bb0),
            23 => Some(MidiKey::B0),
            24 => Some(MidiKey::C0),
            25 => Some(MidiKey::Db0),
            26 => Some(MidiKey::D0),
            27 => Some(MidiKey::Eb0),
            28 => Some(MidiKey::E0),
            29 => Some(MidiKey::F0),
            30 => Some(MidiKey::Gb0),
            31 => Some(MidiKey::G0),
            32 => Some(MidiKey::Ab0),
            33 => Some(MidiKey::A1),
            34 => Some(MidiKey::Bb1),
            35 => Some(MidiKey::B1),
            36 => Some(MidiKey::C1),
            37 => Some(MidiKey::Db1),
            38 => Some(MidiKey::D1),
            39 => Some(MidiKey::Eb1),
            40 => Some(MidiKey::E1),
            41 => Some(MidiKey::F1),
            42 => Some(MidiKey::Gb1),
            43 => Some(MidiKey::G1),
            44 => Some(MidiKey::Ab1),
            45 => Some(MidiKey::A2),
            46 => Some(MidiKey::Bb2),
            47 => Some(MidiKey::B2),
            48 => Some(MidiKey::C2),
            49 => Some(MidiKey::Db2),
            50 => Some(MidiKey::D2),
            51 => Some(MidiKey::Eb2),
            52 => Some(MidiKey::E2),
            53 => Some(MidiKey::F2),
            54 => Some(MidiKey::Gb2),
            55 => Some(MidiKey::G2),
            56 => Some(MidiKey::Ab2),
            57 => Some(MidiKey::A3),
            58 => Some(MidiKey::Bb3),
            59 => Some(MidiKey::B3),
            60 => Some(MidiKey::C3),
            61 => Some(MidiKey::Db3),
            62 => Some(MidiKey::D3),
            63 => Some(MidiKey::Eb3),
            64 => Some(MidiKey::E3),
            65 => Some(MidiKey::F3),
            66 => Some(MidiKey::Gb3),
            67 => Some(MidiKey::G3),
            68 => Some(MidiKey::Ab3),
            69 => Some(MidiKey::A4),
            70 => Some(MidiKey::Bb4),
            71 => Some(MidiKey::B4),
            72 => Some(MidiKey::C4),
            73 => Some(MidiKey::Db4),
            74 => Some(MidiKey::D4),
            75 => Some(MidiKey::Eb4),
            76 => Some(MidiKey::E4),
            77 => Some(MidiKey::F4),
            78 => Some(MidiKey::Gb4),
            79 => Some(MidiKey::G4),
            80 => Some(MidiKey::Ab4),
            81 => Some(MidiKey::A5),
            82 => Some(MidiKey::Bb5),
            83 => Some(MidiKey::B5),
            84 => Some(MidiKey::C5),
            85 => Some(MidiKey::Db5),
            86 => Some(MidiKey::D5),
            87 => Some(MidiKey::Eb5),
            88 => Some(MidiKey::E5),
            89 => Some(MidiKey::F5),
            90 => Some(MidiKey::Gb5),
            91 => Some(MidiKey::G5),
            92 => Some(MidiKey::Ab5),
            93 => Some(MidiKey::A6),
            94 => Some(MidiKey::Bb6),
            95 => Some(MidiKey::B6),
            96 => Some(MidiKey::C6),
            97 => Some(MidiKey::Db6),
            98 => Some(MidiKey::D6),
            99 => Some(MidiKey::Eb6),
            100 => Some(MidiKey::E6),
            101 => Some(MidiKey::F6),
            102 => Some(MidiKey::Gb6),
            103 => Some(MidiKey::G6),
            104 => Some(MidiKey::Ab6),
            105 => Some(MidiKey::A7),
            106 => Some(MidiKey::Bb7),
            107 => Some(MidiKey::B7),
            _ => None,
        }
    }

    /// The frequency of the key in hertz, as the bits of its
    /// single-precision encoding. It is positive and finite.
    pub fn frequency_bits(self) -> (bits: u32)
        ensures
            bits == self.spec_frequency_bits(),
            0 < bits < 0x7F80_0000,
    {
        let offset = self.index() - LOWEST_KEY;
        let note = offset % 12;
        let octave = offset / 12;
        let base: u32 = if note == 0 {
            0x41DC0000
        } else if note == 1 {
            0x41E914F6
        } else if note == 2 {
            0x41F6F110
        } else if note == 3 {
            0x4202D013
        } else if note == 4 {
            0x420A9760
        } else if note == 5 {
            0x4212D517
        } else if note == 6 {
            0x421B9041
        } else if note == 7 {
            0x4224D054
        } else if note == 8 {
            0x422E9D37
        } else if note == 9 {
            0x4238FF49
        } else if note == 10 {
            0x4243FF6A
        } else {
            0x424FA700
        };
        base + (octave as u32) * OCTAVE_BITS
    }

    /// Whether the key is one of the five raised keys of its octave (the
    /// black keys of a piano).
    pub fn is_step_key(self) -> (raised: bool)
        ensures
            raised == self.spec_is_step_key(),
    {
        let note = (self.index() - LOWEST_KEY) % 12;
        note == 1 || note == 4 || note == 6 || note == 9 || note == 11
    }
}

/// Two keys with the same number are the same key.
pub proof fn lemma_index_identifies(first: MidiKey, second: MidiKey)
    requires
        first.spec_index() == second.spec_index(),
    ensures
        first == second,
{
}

/// The key twelve numbers up sounds at twice the frequency: its bits differ
/// by one in the exponent field.
pub proof fn lemma_octave_doubles(lower: MidiKey, upper: MidiKey)
    requires
        upper.spec_index() == lower.spec_index() + 12,
    ensures
        upper.spec_frequency_bits() == lower.spec_frequency_bits() + OCTAVE_BITS,
{
}

/// A key with a higher number has a higher frequency. (For positive values
/// the order of the encodings is the order of the values.)
pub proof fn lemma_frequency_rises(lower: MidiKey, upper: MidiKey)
    requires
        lower.spec_index() < upper.spec_index(),
    ensures
        lower.spec_frequency_bits() < upper.spec_frequency_bits(),
{
}

} // verus!
