//! The mixer: a node that adds up others.

use crate::node::{Signal, SoundNode};
use vstd::prelude::*;

verus! {

/// The sum of the signals that are present, taken in order from silence,
/// each marked with its place.
pub open spec fn mix(signals: Seq<Option<Signal>>) -> Signal
    decreases signals.len(),
{
    if signals.len() == 0 {
        Signal::Silence
    } else {
        let before = mix(signals.drop_last());
        match signals.last() {
            Some(signal) => Signal::Sum {
                left: Box::new(before),
                right: Box::new(
                    Signal::Part { place: (signals.len() - 1) as usize, signal: Box::new(signal) },
                ),
            },
            None => before,
        }
    }
}

/// A mixer: adds up what its children yield.
///
/// A child that yields nothing on a tick is left out of the sum; it does not
/// end the mix. The mixer has ended when every child has.
#[derive(Debug, PartialEq, Eq)]
pub struct CompoundSoundNode<T: SoundNode> {
    pub nodes: Vec<T>,
}

impl<T: SoundNode> CompoundSoundNode<T> {
    /// Every child is well formed.
    pub open spec fn well_formed(&self) -> bool {
        forall|i: int| 0 <= i < self.nodes@.len() ==> (#[trigger] self.nodes@[i]).well_formed()
    }

    /// Every child has ended.
    pub open spec fn finished(&self) -> bool {
        forall|i: int| 0 <= i < self.nodes@.len() ==> (#[trigger] self.nodes@[i]).finished()
    }

    /// What the next pull yields: nothing once the mixer has ended, and
    /// before that the sum of what the children yield.
    pub open spec fn signal(&self) -> Option<Signal> {
        if self.finished() {
            None
        } else {
            Some(mix(self.nodes@.map_values(|node: T| node.signal())))
        }
    }

    /// A mixer over the given children.
    pub fn new(nodes: Vec<T>) -> (mixer: CompoundSoundNode<T>)
        ensures
            mixer.nodes == nodes,
    {
        CompoundSoundNode { nodes }
    }

    /// Reports whether every child has ended.
    pub fn ended(&self) -> (ended: bool)
        requires
            self.well_formed(),
        ensures
            ended == self.finished(),
    {
        let mut i: usize = 0;
        while i < self.nodes.len()
            invariant
                i <= self.nodes@.len(),
                self.well_formed(),
                forall|j: int| 0 <= j < i ==> (#[trigger] self.nodes@[j]).finished(),
            decreases self.nodes@.len() - i,
        {
            if !self.nodes[i].ended() {
                return false;
            }
            i += 1;
        }
        true
    }

    /// Pulls every child and yields the sum of what is present. Once the
    /// mixer has ended it yields nothing and pulls no child.
    pub fn next_sample(&mut self) -> (signal: Option<Signal>)
        requires
            old(self).well_formed(),
        ensures
            final(self).well_formed(),
            signal == old(self).signal(),
            final(self).nodes@.len() == old(self).nodes@.len(),
            old(self).finished() ==> final(self).nodes@ == old(self).nodes@,
            !old(self).finished() ==> forall|i: int|
                0 <= i < old(self).nodes@.len() ==> final(self).nodes@[i] == (
                #[trigger] old(self).nodes@[i]).advanced(),
    {
        if self.ended() {
            return None;
        }
        let ghost signals = self.nodes@.map_values(|node: T| node.signal());
        let mut sum = Signal::Silence;
        let mut i: usize = 0;
        assert(signals.take(0) =~= Seq::<Option<Signal>>::empty());
        while i < self.nodes.len()
            invariant
                i <= self.nodes@.len(),
                self.nodes@.len() == old(self).nodes@.len(),
                signals == old(self).nodes@.map_values(|node: T| node.signal()),
                sum == mix(signals.take(i as int)),
                forall|j: int|
                    0 <= j < self.nodes@.len() ==> (#[trigger] self.nodes@[j]).well_formed(),
                forall|j: int| i <= j < self.nodes@.len() ==> self.nodes@[j] == old(self).nodes@[j],
                forall|j: int|
                    0 <= j < i ==> self.nodes@[j] == (#[trigger] old(self).nodes@[j]).advanced(),
            decreases self.nodes@.len() - i,
        {
            let ghost before = self.nodes@[i as int];
            let child = self.nodes[i].next_sample();
            proof {
                assert(signals.take(i + 1).drop_last() =~= signals.take(i as int));
                assert(signals.take(i + 1).last() == before.signal());
                assert(self.nodes@[i as int] == old(self).nodes@[i as int].advanced());
            }
            match child {
                Some(signal) => {
                    let part = Signal::Part { place: i, signal: Box::new(signal) };
                    sum = Signal::Sum { left: Box::new(sum), right: Box::new(part) };
                },
                None => {},
            }
            i += 1;
        }
        assert(signals.take(i as int) =~= signals);
        Some(sum)
    }
}

} // verus!
