//! Delay and reverb: a single-tap delay over a circular delay line, and
//! three of them in a row.

use crate::node::{after, lemma_after_well_formed, lemma_stays_ended, sounds_for};
use crate::node::{Signal, SoundNode};
use vstd::prelude::*;

verus! {

/// Length in samples of a delay of `delay_millis` milliseconds at
/// `sample_rate` samples per second, rounded to the nearest sample.
pub open spec fn delay_length(sample_rate: int, delay_millis: int) -> int {
    (sample_rate * delay_millis + 500) / 1000
}

/// A single-tap delay without feedback, over a circular delay line.
///
/// `position` is the slot of the delay line that the next pull uses, and
/// `filled` says whether the line has been gone through once. While it has
/// not, every pull counts one more sample into the tail that is still to
/// come; afterwards every pull without input takes one sample off it.
#[derive(Debug, PartialEq, Eq)]
pub struct SimpleDelayNode<T: SoundNode> {
    pub node: T,
    pub sample_delay: usize,
    pub position: usize,
    pub filled: bool,
    pub remaining_samples: usize,
}

impl<T: SoundNode> SimpleDelayNode<T> {
    /// Wraps `node` in a delay of `delay_millis` milliseconds at
    /// `sample_rate` samples per second.
    pub fn new(node: T, sample_rate: usize, delay_millis: usize) -> (delay: SimpleDelayNode<T>)
        requires
            node.well_formed(),
            !node.finished(),
            sample_rate * delay_millis + 500 <= usize::MAX,
            delay_length(sample_rate as int, delay_millis as int) >= 1,
        ensures
            delay == (SimpleDelayNode {
                node,
                sample_delay: delay_length(sample_rate as int, delay_millis as int) as usize,
                position: 0,
                filled: false,
                remaining_samples: 0,
            }),
            delay.well_formed(),
            !delay.finished(),
            delay.life() == node.life() + 2 * delay.sample_delay,
    {
        assert(sample_rate * delay_millis >= 0) by (nonlinear_arith)
            requires
                sample_rate >= 0,
                delay_millis >= 0,
        ;
        let sample_delay = (sample_rate * delay_millis + 500) / 1000;
        SimpleDelayNode { node, sample_delay, position: 0, filled: false, remaining_samples: 0 }
    }

    /// The slot after `position` on the circle.
    pub open spec fn next_position(&self) -> usize {
        if self.position + 1 == self.sample_delay {
            0
        } else {
            (self.position + 1) as usize
        }
    }
}

impl<T: SoundNode> SoundNode for SimpleDelayNode<T> {
    open spec fn well_formed(&self) -> bool {
        &&& self.node.well_formed()
        &&& self.position < self.sample_delay
        &&& self.remaining_samples <= self.sample_delay
        &&& !self.filled ==> self.remaining_samples == self.position
        &&& !self.filled && self.position == 0 ==> !self.node.finished()
    }

    open spec fn finished(&self) -> bool {
        self.node.finished() && self.remaining_samples == 0
    }

    open spec fn signal(&self) -> Option<Signal> {
        match self.node.signal() {
            Some(input) => if self.filled {
                Some(
                    Signal::Echoed {
                        slot: self.position,
                        length: self.sample_delay,
                        input: Box::new(input),
                    },
                )
            } else {
                Some(
                    Signal::Filling {
                        slot: self.position,
                        length: self.sample_delay,
                        input: Box::new(input),
                    },
                )
            },
            None => if self.filled && self.remaining_samples > 0 {
                Some(Signal::Tail { slot: self.position, length: self.sample_delay })
            } else {
                None
            },
        }
    }

    open spec fn advanced(&self) -> Self {
        SimpleDelayNode {
            node: self.node.advanced(),
            sample_delay: self.sample_delay,
            position: self.next_position(),
            filled: self.filled || self.position + 1 == self.sample_delay,
            remaining_samples: if !self.filled {
                (self.remaining_samples + 1) as usize
            } else if self.node.signal().is_none() && self.remaining_samples > 0 {
                (self.remaining_samples - 1) as usize
            } else {
                self.remaining_samples
            },
        }
    }

    open spec fn life(&self) -> nat {
        let filling = if self.filled {
            0
        } else {
            self.sample_delay - self.position
        };
        (self.node.life() + self.remaining_samples + 2 * filling) as nat
    }

    fn next_sample(&mut self) -> (signal: Option<Signal>) {
        let input = self.node.next_sample();
        let slot = self.position;
        let length = self.sample_delay;
        let signal = if !self.filled {
            self.remaining_samples += 1;
            match input {
                Some(input) => Some(Signal::Filling { slot, length, input: Box::new(input) }),
                None => None,
            }
        } else {
            match input {
                Some(input) => Some(Signal::Echoed { slot, length, input: Box::new(input) }),
                None => if self.remaining_samples > 0 {
                    self.remaining_samples -= 1;
                    Some(Signal::Tail { slot, length })
                } else {
                    None
                },
            }
        };
        if self.position + 1 == self.sample_delay {
            self.position = 0;
            self.filled = true;
        } else {
            self.position += 1;
        }
        signal
    }

    fn ended(&self) -> (ended: bool) {
        self.node.ended() && self.remaining_samples == 0
    }

    proof fn lemma_pull(&self) {
        self.node.lemma_pull();
    }
}

/// Counting up by one modulo `length` wraps to zero at `length - 1`.
proof fn lemma_mod_successor(count: int, length: int)
    requires
        0 <= count,
        0 < length,
    ensures
        (count + 1) % length == if count % length + 1 == length {
            0
        } else {
            count % length + 1
        },
{
    vstd::arithmetic::div_mod::lemma_fundamental_div_mod(count, length);
    vstd::arithmetic::div_mod::lemma_mod_bound(count, length);
    let quotient = count / length;
    let rest = count % length;
    if rest + 1 == length {
        assert(count + 1 == (quotient + 1) * length) by (nonlinear_arith)
            requires
                count == length * quotient + rest,
                rest + 1 == length,
        ;
        vstd::arithmetic::div_mod::lemma_mod_multiples_basic(quotient + 1, length);
    } else {
        assert(count + 1 == quotient * length + (rest + 1)) by (nonlinear_arith)
            requires
                count == length * quotient + rest,
        ;
        vstd::arithmetic::div_mod::lemma_fundamental_div_mod_converse(
            count + 1,
            length,
            quotient,
            rest + 1,
        );
    }
}

/// Where a delay stands after it has been pulled `ticks` times from new: on
/// slot `ticks mod sample_delay`, with the line gone through once from tick
/// `sample_delay` on, and over a node that has been pulled as often.
pub proof fn lemma_delay_position<T: SoundNode>(delay: SimpleDelayNode<T>, ticks: nat)
    requires
        delay.well_formed(),
        delay.position == 0,
        !delay.filled,
    ensures
        after(delay, ticks).well_formed(),
        after(delay, ticks).sample_delay == delay.sample_delay,
        after(delay, ticks).node == after(delay.node, ticks),
        after(delay, ticks).position == ticks % (delay.sample_delay as nat),
        after(delay, ticks).filled == (ticks >= delay.sample_delay),
        ticks <= delay.sample_delay ==> after(delay, ticks).remaining_samples == ticks,
    decreases ticks,
{
    if ticks > 0 {
        let before = (ticks - 1) as nat;
        lemma_delay_position(delay, before);
        after(delay, before).lemma_pull();
        lemma_mod_successor(before as int, delay.sample_delay as int);
    }
}

/// The slot that a pull uses is the one that the pull `sample_delay` pulls
/// before it used, and that no pull in between used: what a delay mixes in
/// is what it took in exactly `sample_delay` pulls earlier.
pub proof fn lemma_delay_reads_back<T: SoundNode>(
    delay: SimpleDelayNode<T>,
    ticks: nat,
    gap: nat,
)
    requires
        delay.well_formed(),
        delay.position == 0,
        !delay.filled,
        ticks >= delay.sample_delay,
        0 < gap < delay.sample_delay,
    ensures
        after(delay, ticks).position == after(
            delay,
            (ticks - delay.sample_delay) as nat,
        ).position,
        after(delay, ticks).position != after(delay, (ticks - gap) as nat).position,
{
    let length = delay.sample_delay as int;
    let now = ticks as int;
    lemma_delay_position(delay, ticks);
    lemma_delay_position(delay, (ticks - delay.sample_delay) as nat);
    lemma_delay_position(delay, (ticks - gap) as nat);
    vstd::arithmetic::div_mod::lemma_fundamental_div_mod(now, length);
    vstd::arithmetic::div_mod::lemma_mod_bound(now, length);
    vstd::arithmetic::div_mod::lemma_fundamental_div_mod(now - gap, length);
    vstd::arithmetic::div_mod::lemma_mod_bound(now - gap, length);
    let whole = now / length;
    let rest = now % length;
    assert(now - length == (whole - 1) * length + rest) by (nonlinear_arith)
        requires
            now == length * whole + rest,
    ;
    vstd::arithmetic::div_mod::lemma_fundamental_div_mod_converse(
        now - length,
        length,
        whole - 1,
        rest,
    );
    if (now - gap) % length == rest {
        let earlier = (now - gap) / length;
        assert(gap == (whole - earlier) * length) by (nonlinear_arith)
            requires
                now == length * whole + rest,
                now - gap == length * earlier + rest,
        ;
        assert(false) by (nonlinear_arith)
            requires
                gap == (whole - earlier) * length,
                0 < gap < length,
        ;
    }
}

/// Once the input of a delay has ended and its line has been gone through,
/// the delay plays its tail: it yields one delayed sample per pull, slot by
/// slot, for as many pulls as samples remain, and has ended after the last
/// of them and not before.
pub proof fn lemma_delay_drains<T: SoundNode>(delay: SimpleDelayNode<T>, ticks: nat)
    requires
        delay.well_formed(),
        delay.filled,
        delay.node.finished(),
        ticks <= delay.remaining_samples,
    ensures
        after(delay, ticks).well_formed(),
        after(delay, ticks).filled,
        after(delay, ticks).node.finished(),
        after(delay, ticks).sample_delay == delay.sample_delay,
        after(delay, ticks).remaining_samples == delay.remaining_samples - ticks,
        after(delay, ticks).position == (delay.position + ticks) % (delay.sample_delay as int),
        after(delay, ticks).finished() <==> ticks == delay.remaining_samples,
        ticks < delay.remaining_samples ==> after(delay, ticks).signal() == Some(
            Signal::Tail { slot: after(delay, ticks).position, length: delay.sample_delay },
        ),
    decreases ticks,
{
    let length = delay.sample_delay as int;
    if ticks == 0 {
        vstd::arithmetic::div_mod::lemma_small_mod(delay.position as nat, length as nat);
        delay.node.lemma_pull();
    } else {
        let before = (ticks - 1) as nat;
        lemma_delay_drains(delay, before);
        let earlier = after(delay, before);
        earlier.lemma_pull();
        earlier.node.lemma_pull();
        earlier.node.advanced().lemma_pull();
        lemma_mod_successor(delay.position + before, length);
    }
}

/// A new delay whose input sounds for `count` pulls, at least as many as
/// the line has slots: while the line fills it passes the input through;
/// then it echoes, and keeps a full line in store; and when the input has
/// ended it plays the line out. Pull number `ticks` finds it as follows.
pub proof fn lemma_delay_phases<T: SoundNode>(delay: SimpleDelayNode<T>, count: nat, ticks: nat)
    requires
        delay.well_formed(),
        delay.position == 0,
        !delay.filled,
        sounds_for(delay.node, count),
        count >= delay.sample_delay,
        ticks <= count + delay.sample_delay,
    ensures
        after(delay, ticks).well_formed(),
        after(delay, ticks).node == after(delay.node, ticks),
        after(delay, ticks).sample_delay == delay.sample_delay,
        after(delay, ticks).position == ticks % (delay.sample_delay as nat),
        after(delay, ticks).filled == (ticks >= delay.sample_delay),
        after(delay, ticks).remaining_samples == if ticks <= delay.sample_delay {
            ticks as int
        } else if ticks <= count {
            delay.sample_delay as int
        } else {
            count + delay.sample_delay - ticks
        },
        ticks < count + delay.sample_delay ==> after(delay, ticks).signal().is_some(),
        after(delay, ticks).finished() <==> ticks == count + delay.sample_delay,
    decreases ticks,
{
    lemma_delay_position(delay, ticks);
    lemma_after_well_formed(delay.node, ticks);
    if ticks >= count {
        lemma_stays_ended(delay.node, count, ticks);
    } else {
        assert(after(delay.node, ticks).signal().is_some());
        after(delay.node, ticks).lemma_pull();
    }
    if ticks > 0 {
        let before = (ticks - 1) as nat;
        lemma_delay_phases(delay, count, before);
        lemma_after_well_formed(delay.node, before);
        if before >= count {
            lemma_stays_ended(delay.node, count, before);
        } else {
            assert(after(delay.node, before).signal().is_some());
        }
        after(delay, before).lemma_pull();
    }
}

/// A new delay whose input sounds for `count` pulls, at least as many as
/// the line has slots, sounds for as many pulls more as the line has slots:
/// it has ended when its tail has drained, and not before.
pub proof fn lemma_delay_sounds<T: SoundNode>(delay: SimpleDelayNode<T>, count: nat)
    requires
        delay.well_formed(),
        delay.position == 0,
        !delay.filled,
        sounds_for(delay.node, count),
        count >= delay.sample_delay,
    ensures
        sounds_for(delay, count + delay.sample_delay as nat),
{
    let total = count + delay.sample_delay as nat;
    lemma_delay_phases(delay, count, total);
    assert forall|k: nat| k < total implies (#[trigger] after(delay, k)).signal().is_some() by {
        lemma_delay_phases(delay, count, k);
    }
}

/// A new reverb whose input sounds for `count` pulls sounds for as many
/// pulls more as its three lines have slots, if each line is no longer than
/// what reaches it.
pub proof fn lemma_reverb_sounds<T: SoundNode>(reverb: DelayReverb<T>, count: nat)
    requires
        reverb.well_formed(),
        reverb.node.position == 0 && !reverb.node.filled,
        reverb.node.node.position == 0 && !reverb.node.node.filled,
        reverb.node.node.node.position == 0 && !reverb.node.node.node.filled,
        sounds_for(reverb.node.node.node.node, count),
        count >= reverb.node.node.node.sample_delay,
        count + reverb.node.node.node.sample_delay >= reverb.node.node.sample_delay,
        count + reverb.node.node.node.sample_delay + reverb.node.node.sample_delay
            >= reverb.node.sample_delay,
    ensures
        sounds_for(
            reverb,
            count + reverb.node.node.node.sample_delay as nat + reverb.node.node.sample_delay as nat
                + reverb.node.sample_delay as nat,
        ),
{
    let first = reverb.node.node.node;
    let second = reverb.node.node;
    let third = reverb.node;
    let total = count + first.sample_delay as nat + second.sample_delay as nat
        + third.sample_delay as nat;
    lemma_delay_sounds(first, count);
    lemma_delay_sounds(second, count + first.sample_delay as nat);
    lemma_delay_sounds(third, count + first.sample_delay as nat + second.sample_delay as nat);
    lemma_reverb_follows(reverb, total);
    assert forall|k: nat| k < total implies (#[trigger] after(reverb, k)).signal().is_some() by {
        lemma_reverb_follows(reverb, k);
        assert(after(third, k).signal().is_some());
    }
}

/// A reverb goes where its last delay goes.
pub proof fn lemma_reverb_follows<T: SoundNode>(reverb: DelayReverb<T>, ticks: nat)
    ensures
        after(reverb, ticks) == (DelayReverb { node: after(reverb.node, ticks) }),
    decreases ticks,
{
    if ticks > 0 {
        lemma_reverb_follows(reverb, (ticks - 1) as nat);
    }
}

/// Three delays in a row, of 0.1, 0.2 and 0.3 seconds, each fed by the one
/// before it.
#[derive(Debug, PartialEq, Eq)]
pub struct DelayReverb<T: SoundNode> {
    pub node: SimpleDelayNode<SimpleDelayNode<SimpleDelayNode<T>>>,
}

impl<T: SoundNode> DelayReverb<T> {
    /// Wraps `node` in the three delays, at `sample_rate` samples per second.
    pub fn new(node: T, sample_rate: usize) -> (reverb: DelayReverb<T>)
        requires
            node.well_formed(),
            !node.finished(),
            5 <= sample_rate,
            sample_rate * 300 + 500 <= usize::MAX,
        ensures
            reverb.well_formed(),
            !reverb.finished(),
            reverb.node.node.node.node == node,
            reverb.node.node.node.sample_delay == delay_length(sample_rate as int, 100),
            reverb.node.node.sample_delay == delay_length(sample_rate as int, 200),
            reverb.node.sample_delay == delay_length(sample_rate as int, 300),
            reverb.node.position == 0 && !reverb.node.filled && reverb.node.remaining_samples == 0,
            reverb.node.node.position == 0 && !reverb.node.node.filled
                && reverb.node.node.remaining_samples == 0,
            reverb.node.node.node.position == 0 && !reverb.node.node.node.filled
                && reverb.node.node.node.remaining_samples == 0,
            reverb.life() == node.life() + 2 * (delay_length(sample_rate as int, 100)
                + delay_length(sample_rate as int, 200) + delay_length(sample_rate as int, 300)),
    {
        let first = SimpleDelayNode::new(node, sample_rate, 100);
        let second = SimpleDelayNode::new(first, sample_rate, 200);
        let third = SimpleDelayNode::new(second, sample_rate, 300);
        DelayReverb { node: third }
    }
}

impl<T: SoundNode> SoundNode for DelayReverb<T> {
    open spec fn well_formed(&self) -> bool {
        self.node.well_formed()
    }

    open spec fn finished(&self) -> bool {
        self.node.finished()
    }

    open spec fn signal(&self) -> Option<Signal> {
        self.node.signal()
    }

    open spec fn advanced(&self) -> Self {
        DelayReverb { node: self.node.advanced() }
    }

    open spec fn life(&self) -> nat {
        self.node.life()
    }

    fn next_sample(&mut self) -> (signal: Option<Signal>) {
        self.node.next_sample()
    }

    fn ended(&self) -> (ended: bool) {
        self.node.ended()
    }

    proof fn lemma_pull(&self) {
        self.node.lemma_pull();
    }
}

} // verus!
