//! The percussive impulse.

use crate::node::{after, sounds_for, Signal, SoundNode};
use vstd::prelude::*;

verus! {

/// The percussive impulse: a chirp that lasts one second's worth of samples.
#[derive(Clone, Copy, Debug, PartialEq, Eq)]
pub struct Kick {
    pub sample_rate: usize,
    pub current_sample: usize,
}

impl Kick {
    /// An impulse at the given sample rate, which is also its length in
    /// samples.
    pub fn new(sample_rate: usize) -> (node: Kick)
        requires
            sample_rate > 0,
        ensures
            node == (Kick { sample_rate, current_sample: 0 }),
            node.well_formed(),
            !node.finished(),
            node.life() == sample_rate,
    {
        Kick { sample_rate, current_sample: 0 }
    }
}

impl SoundNode for Kick {
    open spec fn well_formed(&self) -> bool {
        self.current_sample <= self.sample_rate
    }

    open spec fn finished(&self) -> bool {
        self.current_sample >= self.sample_rate
    }

    open spec fn signal(&self) -> Option<Signal> {
        if self.current_sample >= self.sample_rate {
            None
        } else {
            Some(Signal::Impulse { index: self.current_sample, sample_rate: self.sample_rate })
        }
    }

    open spec fn advanced(&self) -> Self {
        if self.current_sample >= self.sample_rate {
            *self
        } else {
            Kick { current_sample: (self.current_sample + 1) as usize, ..*self }
        }
    }

    open spec fn life(&self) -> nat {
        (self.sample_rate - self.current_sample) as nat
    }

    fn next_sample(&mut self) -> (signal: Option<Signal>) {
        if self.ended() {
            return None;
        }
        let signal = Signal::Impulse { index: self.current_sample, sample_rate: self.sample_rate };
        self.current_sample += 1;
        Some(signal)
    }

    fn ended(&self) -> (ended: bool) {
        self.current_sample >= self.sample_rate
    }

    proof fn lemma_pull(&self) {
    }
}

/// A new impulse sounds for exactly `sample_rate` pulls, whatever the
/// length of a beat: pull number `ticks` yields sample `ticks` of the chirp,
/// and from pull number `sample_rate` on the impulse has ended.
pub proof fn lemma_kick_plays(node: Kick, ticks: nat)
    requires
        node.current_sample == 0,
    ensures
        after(node, ticks) == (Kick {
            current_sample: vstd::math::min(ticks as int, node.sample_rate as int) as usize,
            ..node
        }),
        after(node, ticks).finished() <==> ticks >= node.sample_rate,
        ticks < node.sample_rate ==> after(node, ticks).signal() == Some(
            Signal::Impulse { index: ticks as usize, sample_rate: node.sample_rate },
        ),
    decreases ticks,
{
    if ticks > 0 {
        lemma_kick_plays(node, (ticks - 1) as nat);
    }
}

/// A new impulse sounds for `sample_rate` pulls.
pub proof fn lemma_kick_sounds(node: Kick)
    requires
        node.current_sample == 0,
    ensures
        sounds_for(node, node.sample_rate as nat),
{
    lemma_kick_plays(node, node.sample_rate as nat);
    assert forall|k: nat| k < node.sample_rate implies (#[trigger] after(
        node,
        k,
    )).signal().is_some() by {
        lemma_kick_plays(node, k);
    }
}

} // verus!
