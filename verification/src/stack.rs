//! A stack of recorded paths sharing one range: push and pop in last-in,
//! first-out order, and a batch decode that replays every stored path in
//! storage order.

use crate::bits::{bits_of, Path};
use crate::codec::replay_path;
use crate::model::replayed_value;
use vstd::prelude::*;

verus! {

/// An ordered collection of paths, viewed as the sequence of their bit
/// contents in storage order. It carries no per-entry range: batch decoding
/// assumes every stored path was encoded against the range it is given.
pub struct BBSEStack {
    pub entries: Vec<Path>,
}

impl View for BBSEStack {
    type V = Seq<Seq<bool>>;

    open spec fn view(&self) -> Seq<Seq<bool>> {
        self.entries@.map_values(|path: Path| bits_of(path))
    }
}

impl BBSEStack {
    /// An empty stack.
    pub fn new() -> (stack: BBSEStack)
        ensures
            stack@ == Seq::<Seq<bool>>::empty(),
    {
        let stack = BBSEStack { entries: Vec::new() };
        proof {
            assert(stack@ =~= Seq::<Seq<bool>>::empty());
        }
        stack
    }

    /// Appends a path at the top.
    pub fn push(&mut self, path: Path)
        ensures
            final(self)@ == old(self)@.push(bits_of(path)),
    {
        self.entries.push(path);
        proof {
            assert(self@ =~= old(self)@.push(bits_of(path)));
        }
    }

    /// Removes and returns the most recently pushed path, or nothing when
    /// the stack is empty.
    pub fn pop(&mut self) -> (top: Option<Path>)
        ensures
            old(self)@.len() == 0 ==> top is None && final(self)@ == old(self)@,
            old(self)@.len() > 0 ==> (top matches Some(path) && bits_of(path) == old(
                self,
            )@.last() && final(self)@ == old(self)@.drop_last()),
    {
        let top = self.entries.pop();
        proof {
            if old(self)@.len() > 0 {
                assert(self@ =~= old(self)@.drop_last());
            } else {
                assert(self@ =~= old(self)@);
            }
        }
        top
    }

    /// Replays every stored path against `[start, end)` and returns the
    /// values in storage order. The stack is not changed. No per-entry check
    /// is possible: a path stored against another range simply replays to a
    /// wrong value.
    pub fn decode_all(&self, start: usize, end: usize) -> (values: Vec<usize>)
        ensures
            values@.len() == self@.len(),
            forall|i: int|
                0 <= i < self@.len() ==> values@[i] as int == replayed_value(
                    start as int,
                    end as int,
                    self@[i],
                ),
    {
        let mut values: Vec<usize> = Vec::new();
        let n = self.entries.len();
        let mut i: usize = 0;
        while i < n
            invariant
                i <= n,
                n == self@.len(),
                n == self.entries@.len(),
                values@.len() == i,
                forall|j: int|
                    0 <= j < i ==> values@[j] as int == replayed_value(
                        start as int,
                        end as int,
                        self@[j],
                    ),
            decreases n - i,
        {
            let path = &self.entries[i];
            proof {
                assert(bits_of(*path) == self@[i as int]);
            }
            let value = replay_path(start, end, path);
            values.push(value);
            i += 1;
        }
        values
    }
}

impl Default for BBSEStack {
    /// The default stack is empty.
    fn default() -> (stack: BBSEStack)
        ensures
            stack@ == Seq::<Seq<bool>>::empty(),
    {
        BBSEStack::new()
    }
}

} // verus!
