//! Gain: a node that scales another.

use crate::node::{after, sounds_for, Signal, SoundNode};
use vstd::prelude::*;

verus! {

/// Scales the samples of the node it wraps by a fixed gain.
#[derive(Debug, PartialEq, Eq)]
pub struct GainNode<T: SoundNode> {
    pub node: T,
    pub value: u32,
}

impl<T: SoundNode> GainNode<T> {
    /// Wraps `node`; `value` is the gain in decibels.
    pub fn new(node: T, value: u32) -> (gain: GainNode<T>)
        ensures
            gain == (GainNode { node, value }),
    {
        GainNode { node, value }
    }
}

impl<T: SoundNode> SoundNode for GainNode<T> {
    open spec fn well_formed(&self) -> bool {
        self.node.well_formed()
    }

    open spec fn finished(&self) -> bool {
        self.node.finished()
    }

    open spec fn signal(&self) -> Option<Signal> {
        match self.node.signal() {
            Some(input) => Some(Signal::Scaled { gain: self.value, input: Box::new(input) }),
            None => None,
        }
    }

    open spec fn advanced(&self) -> Self {
        GainNode { node: self.node.advanced(), value: self.value }
    }

    open spec fn life(&self) -> nat {
        self.node.life()
    }

    fn next_sample(&mut self) -> (signal: Option<Signal>) {
        match self.node.next_sample() {
            Some(input) => Some(Signal::Scaled { gain: self.value, input: Box::new(input) }),
            None => None,
        }
    }

    fn ended(&self) -> (ended: bool) {
        self.node.ended()
    }

    proof fn lemma_pull(&self) {
        self.node.lemma_pull();
    }
}

/// A gain goes where its node goes: after any number of pulls it wraps the
/// node after that many pulls, and has ended exactly if the node has.
pub proof fn lemma_gain_follows<T: SoundNode>(gain: GainNode<T>, ticks: nat)
    ensures
        after(gain, ticks) == (GainNode { node: after(gain.node, ticks), value: gain.value }),
        after(gain, ticks).finished() == after(gain.node, ticks).finished(),
    decreases ticks,
{
    if ticks > 0 {
        lemma_gain_follows(gain, (ticks - 1) as nat);
    }
}

/// A gain sounds for as long as its node does.
pub proof fn lemma_gain_sounds<T: SoundNode>(gain: GainNode<T>, count: nat)
    requires
        sounds_for(gain.node, count),
    ensures
        sounds_for(gain, count),
{
    lemma_gain_follows(gain, count);
    assert forall|k: nat| k < count implies (#[trigger] after(gain, k)).signal().is_some() by {
        lemma_gain_follows(gain, k);
        assert(after(gain.node, k).signal().is_some());
    }
}

} // verus!
