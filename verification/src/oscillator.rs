//! The oscillator: one waveform, played for a fixed number of samples under
//! a fade envelope.

use crate::node::{after, sounds_for, Signal, SoundNode, Waveform};
use vstd::prelude::*;

verus! {

/// Number of samples over which an oscillator fades in, and fades out.
pub const EDGE_SMOOTH: usize = 400;

/// The level of the fade envelope, out of 400, for a sample that lies
/// `elapsed` samples after the start of a note of `duration` samples: the
/// least of 400, the distance from the start and the distance to the end.
pub open spec fn fade_level(elapsed: int, duration: int) -> int {
    vstd::math::min(EDGE_SMOOTH as int, vstd::math::min(elapsed, duration - elapsed))
}

/// The envelope rises over the first samples of a note: up to the middle of
/// the note a later sample is never quieter, and below the full level of 400
/// it is louder. On the rising edge the level is the number of samples
/// elapsed.
pub proof fn lemma_fade_rises(earlier: int, later: int, duration: int)
    requires
        0 <= earlier <= later,
        later <= duration - later,
    ensures
        fade_level(earlier, duration) <= fade_level(later, duration),
        earlier < later <= 400 ==> fade_level(earlier, duration) < fade_level(later, duration),
        later <= 400 ==> fade_level(later, duration) == later,
{
}

/// The envelope falls over the last samples of a note: from the middle of
/// the note on a later sample is never louder, and below the full level of
/// 400 it is quieter. On the falling edge the level is the number of samples
/// still to come.
pub proof fn lemma_fade_falls(earlier: int, later: int, duration: int)
    requires
        earlier <= later <= duration,
        duration - earlier <= earlier,
    ensures
        fade_level(earlier, duration) >= fade_level(later, duration),
        earlier < later && duration - earlier <= 400 ==> fade_level(earlier, duration)
            > fade_level(later, duration),
        duration - earlier <= 400 ==> fade_level(earlier, duration) == duration - earlier,
{
}

/// Away from both edges the envelope is at its full level, and it is never
/// above it nor below zero.
pub proof fn lemma_fade_bounds(elapsed: int, duration: int)
    requires
        0 <= elapsed <= duration,
    ensures
        0 <= fade_level(elapsed, duration) <= 400,
        400 <= elapsed <= duration - 400 ==> fade_level(elapsed, duration) == 400,
        fade_level(elapsed, duration) == fade_level(duration - elapsed, duration),
{
}

/// An oscillator that plays one waveform for a fixed number of samples.
#[derive(Clone, Copy, Debug, PartialEq, Eq)]
pub struct PlayedWaveform {
    pub waveform: Waveform,
    pub frequency: u32,
    pub current_sample: usize,
    pub sample_count: usize,
}

impl PlayedWaveform {
    /// An oscillator of the given shape and frequency that lasts
    /// `sample_count` samples. The frequency, in hertz, is given by the bits
    /// of its single-precision encoding, and is positive and finite.
    pub fn new(waveform: Waveform, frequency: u32, sample_count: usize) -> (node: PlayedWaveform)
        requires
            0 < frequency < 0x7F80_0000,
            sample_count > 0,
        ensures
            node == (PlayedWaveform { waveform, frequency, current_sample: 0, sample_count }),
            node.well_formed(),
            !node.finished(),
            node.life() == sample_count,
    {
        PlayedWaveform { waveform, frequency, current_sample: 0, sample_count }
    }
}

impl SoundNode for PlayedWaveform {
    open spec fn well_formed(&self) -> bool {
        self.current_sample <= self.sample_count
    }

    open spec fn finished(&self) -> bool {
        self.current_sample >= self.sample_count
    }

    open spec fn signal(&self) -> Option<Signal> {
        if self.current_sample >= self.sample_count {
            None
        } else {
            Some(
                Signal::Wave {
                    waveform: self.waveform,
                    frequency: self.frequency,
                    index: self.current_sample,
                    fade: fade_level(self.current_sample as int, self.sample_count as int) as usize,
                },
            )
        }
    }

    open spec fn advanced(&self) -> Self {
        if self.current_sample >= self.sample_count {
            *self
        } else {
            PlayedWaveform { current_sample: (self.current_sample + 1) as usize, ..*self }
        }
    }

    open spec fn life(&self) -> nat {
        (self.sample_count - self.current_sample) as nat
    }

    fn next_sample(&mut self) -> (signal: Option<Signal>) {
        if self.current_sample >= self.sample_count {
            return None;
        }
        let ahead = self.sample_count - self.current_sample;
        let nearer = if self.current_sample <= ahead {
            self.current_sample
        } else {
            ahead
        };
        let fade = if nearer < EDGE_SMOOTH {
            nearer
        } else {
            EDGE_SMOOTH
        };
        let signal = Signal::Wave {
            waveform: self.waveform,
            frequency: self.frequency,
            index: self.current_sample,
            fade,
        };
        self.current_sample += 1;
        Some(signal)
    }

    fn ended(&self) -> (ended: bool) {
        self.current_sample >= self.sample_count
    }

    proof fn lemma_pull(&self) {
    }
}

/// A new oscillator sounds for exactly `sample_count` pulls: pull number
/// `ticks` yields sample `ticks` of the waveform under the fade envelope,
/// and from pull number `sample_count` on the oscillator has ended.
pub proof fn lemma_oscillator_plays(node: PlayedWaveform, ticks: nat)
    requires
        node.current_sample == 0,
    ensures
        after(node, ticks) == (PlayedWaveform {
            current_sample: vstd::math::min(ticks as int, node.sample_count as int) as usize,
            ..node
        }),
        after(node, ticks).finished() <==> ticks >= node.sample_count,
        ticks < node.sample_count ==> after(node, ticks).signal() == Some(
            Signal::Wave {
                waveform: node.waveform,
                frequency: node.frequency,
                index: ticks as usize,
                fade: fade_level(ticks as int, node.sample_count as int) as usize,
            },
        ),
    decreases ticks,
{
    if ticks > 0 {
        lemma_oscillator_plays(node, (ticks - 1) as nat);
    }
}

/// A new oscillator sounds for `sample_count` pulls.
pub proof fn lemma_oscillator_sounds(node: PlayedWaveform)
    requires
        node.current_sample == 0,
    ensures
        sounds_for(node, node.sample_count as nat),
{
    lemma_oscillator_plays(node, node.sample_count as nat);
    assert forall|k: nat| k < node.sample_count implies (#[trigger] after(
        node,
        k,
    )).signal().is_some() by {
        lemma_oscillator_plays(node, k);
    }
}

} // verus!
