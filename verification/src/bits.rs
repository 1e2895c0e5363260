//! The packed bit-vector that carries a recorded path. It keeps its bits in
//! a `bitvec` vector (most significant bit first), and its contents are
//! modelled as a `Seq<bool>`.

use bitvec::order::Msb0;
use bitvec::vec::BitVec;
use vstd::prelude::*;

verus! {

/// An ordered sequence of binary decisions, packed into a bit buffer.
/// `false` keeps the lower half of the bounds, `true` the upper half.
#[verifier::external_body]
pub struct Path {
    bits: BitVec<u8, Msb0>,
}

/// The bits a path holds, in front-to-back order.
pub uninterp spec fn bits_of(path: Path) -> Seq<bool>;

impl View for Path {
    type V = Seq<bool>;

    open spec fn view(&self) -> Seq<bool> {
        bits_of(*self)
    }
}

/// Relies on bitvec's `BitVec::new`: it returns an empty bit-vector.
#[verifier::external_body]
fn path_new() -> (path: Path)
    ensures
        bits_of(path) == Seq::<bool>::empty(),
{
    Path { bits: BitVec::new() }
}

/// Relies on bitvec's `BitVec::push`: it appends one bit at the back, and
/// panics only when the length would pass `BitSlice::MAX_BITS`, which is
/// `usize::MAX >> 3`; the bound required here stays below that on every
/// architecture.
#[verifier::external_body]
fn path_push(path: &mut Path, bit: bool)
    requires
        bits_of(*old(path)).len() < 0x1FFF_FFFF,
    ensures
        bits_of(*final(path)) == bits_of(*old(path)).push(bit),
{
    path.bits.push(bit);
}

/// Relies on bitvec's `BitVec::len` (through `BitSlice::len`): it returns
/// the number of bits held.
#[verifier::external_body]
fn path_len(path: &Path) -> (n: usize)
    ensures
        n == bits_of(*path).len(),
{
    path.bits.len()
}

/// Relies on bitvec's `Index<usize>` for `BitSlice`: it returns the bit at
/// `index`, and panics only when `index` is out of bounds, which the bound
/// required here rules out.
#[verifier::external_body]
fn path_bit(path: &Path, index: usize) -> (bit: bool)
    requires
        index < bits_of(*path).len(),
    ensures
        bit == bits_of(*path)[index as int],
{
    path.bits[index]
}

impl Path {
    /// An empty path: no decision recorded yet.
    pub fn new() -> (path: Path)
        ensures
            path@ == Seq::<bool>::empty(),
    {
        path_new()
    }

    /// Appends one decision at the back. The length bound keeps the backing
    /// buffer within what it can encode; a recorded search path stays far
    /// below it.
    pub fn push(&mut self, bit: bool)
        requires
            old(self)@.len() < 0x1FFF_FFFF,
        ensures
            final(self)@ == old(self)@.push(bit),
    {
        path_push(self, bit);
    }

    /// How many decisions the path holds.
    pub fn len(&self) -> (n: usize)
        ensures
            n == self@.len(),
    {
        path_len(self)
    }

    /// Whether the path holds no decision at all.
    pub fn is_empty(&self) -> (empty: bool)
        ensures
            empty == (self@.len() == 0),
    {
        self.len() == 0
    }

    /// The decision at position `index`, counted from the front.
    pub fn bit(&self, index: usize) -> (bit: bool)
        requires
            index < self@.len(),
        ensures
            bit == self@[index as int],
    {
        path_bit(self, index)
    }
}

} // verus!
