//! Sound nodes: what a generator is, and the signal it yields.
//!
//! A node is pulled once per sample. It does not compute the sample: it
//! says, as a [`Signal`], how the sample comes about, and moves its own
//! counters on. Every decision the engine takes (how long a node lives,
//! which slot of a delay line is read and written, when a tail has drained)
//! is taken on integers, by the nodes; evaluating a signal is the caller's
//! part.

use vstd::prelude::*;

verus! {

/// Sample rate of the renderer, in samples per second.
pub const RENDER_SAMPLE_RATE: usize = 44100;

/// The periodic shapes an oscillator can have.
#[derive(Clone, Copy, Debug, PartialEq, Eq)]
pub enum Waveform {
    Sawtooth,
    Sine,
    Square,
}

/// How one sample comes about.
///
/// Sample values, frequencies and gains are carried as the 32 bits of their
/// IEEE-754 single-precision encoding. A delay line is a buffer of `length`
/// samples, all zero at first, that belongs to the node which names it; the
/// signals of one node name the same buffer on every tick. Within the
/// signal of a node, a delay line is found by the way that leads to it:
/// the inputs passed through and the places taken in mixers.
#[derive(Debug, PartialEq, Eq)]
pub enum Signal {
    /// The sample zero.
    Silence,
    /// Sample `index` of a waveform of the given frequency at the render
    /// sample rate, scaled by `fade / 400` and then by the headroom 0.2.
    Wave { waveform: Waveform, frequency: u32, index: usize, fade: usize },
    /// Sample `index` of the decaying chirp `sin(2000 * exp(-15 * t) * t)`,
    /// with `t = index / sample_rate` seconds.
    Impulse { index: usize, sample_rate: usize },
    /// The input times the linear factor `(gain + 30) / 30`, `gain` in
    /// decibels.
    Scaled { gain: u32, input: Box<Signal> },
    /// The input itself, which is also stored in `slot` of the delay line.
    Filling { slot: usize, length: usize, input: Box<Signal> },
    /// The input plus 0.4 times what `slot` of the delay line holds; the
    /// input is then stored in that slot.
    Echoed { slot: usize, length: usize, input: Box<Signal> },
    /// 0.4 times what `slot` of the delay line holds.
    Tail { slot: usize, length: usize },
    /// The sum of two signals, left operand first.
    Sum { left: Box<Signal>, right: Box<Signal> },
    /// What the child at `place` of a mixer yields.
    Part { place: usize, signal: Box<Signal> },
}

/// A generator that is pulled once per sample.
///
/// `signal` and `advanced` are the mathematical model of one pull: what it
/// yields, and the state it leaves. `life` bounds the number of pulls until
/// the node has ended.
pub trait SoundNode: Sized {
    /// The counters of the node are consistent.
    spec fn well_formed(&self) -> bool;

    /// The node contributes no further signal.
    spec fn finished(&self) -> bool;

    /// What the next pull yields.
    spec fn signal(&self) -> Option<Signal>;

    /// The node after the next pull.
    spec fn advanced(&self) -> Self;

    /// An upper bound on the number of pulls after which the node has ended.
    spec fn life(&self) -> nat;

    /// Yields the next sample, or `None` where the node has nothing to
    /// contribute on this tick, and advances by one tick.
    fn next_sample(&mut self) -> (signal: Option<Signal>)
        requires
            old(self).well_formed(),
        ensures
            final(self).well_formed(),
            *final(self) == old(self).advanced(),
            signal == old(self).signal(),
    ;

    /// Reports whether the node has ended, without consuming anything.
    fn ended(&self) -> (ended: bool)
        requires
            self.well_formed(),
        ensures
            ended == self.finished(),
    ;

    /// A pull keeps the node well formed and never lengthens its life; it
    /// shortens the life of a node that has not ended. A node that has ended
    /// is silent and stays ended.
    proof fn lemma_pull(&self)
        requires
            self.well_formed(),
        ensures
            self.advanced().well_formed(),
            self.advanced().life() <= self.life(),
            !self.finished() ==> self.advanced().life() < self.life(),
            self.finished() ==> self.signal().is_none() && self.advanced().finished(),
    ;
}

/// The node after `ticks` pulls.
pub open spec fn after<T: SoundNode>(node: T, ticks: nat) -> T
    decreases ticks,
{
    if ticks == 0 {
        node
    } else {
        after(node, (ticks - 1) as nat).advanced()
    }
}

/// The node yields a sample on each of its first `count` pulls, and has
/// ended after them.
pub open spec fn sounds_for<T: SoundNode>(node: T, count: nat) -> bool {
    &&& forall|k: nat| k < count ==> (#[trigger] after(node, k)).signal().is_some()
    &&& after(node, count).finished()
}

/// Pulls keep a node well formed.
pub proof fn lemma_after_well_formed<T: SoundNode>(node: T, ticks: nat)
    requires
        node.well_formed(),
    ensures
        after(node, ticks).well_formed(),
    decreases ticks,
{
    if ticks > 0 {
        lemma_after_well_formed(node, (ticks - 1) as nat);
        after(node, (ticks - 1) as nat).lemma_pull();
    }
}

/// A node that has ended stays ended, and yields nothing, however often it
/// is pulled.
pub proof fn lemma_stays_ended<T: SoundNode>(node: T, from: nat, ticks: nat)
    requires
        node.well_formed(),
        after(node, from).finished(),
        from <= ticks,
    ensures
        after(node, ticks).finished(),
        after(node, ticks).signal().is_none(),
    decreases ticks,
{
    lemma_after_well_formed(node, ticks);
    if ticks > from {
        let before = (ticks - 1) as nat;
        lemma_stays_ended(node, from, before);
        lemma_after_well_formed(node, before);
        after(node, before).lemma_pull();
    }
    after(node, ticks).lemma_pull();
}

/// A node sounds for one number of pulls only.
pub proof fn lemma_sounds_for_is_unique<T: SoundNode>(node: T, first: nat, second: nat)
    requires
        node.well_formed(),
        sounds_for(node, first),
        sounds_for(node, second),
    ensures
        first == second,
{
    if first < second {
        lemma_stays_ended(node, first, first);
        assert(after(node, first).signal().is_some());
    } else if second < first {
        lemma_stays_ended(node, second, second);
        assert(after(node, second).signal().is_some());
    }
}

} // verus!
