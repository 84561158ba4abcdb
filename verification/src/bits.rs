//! Bit vectors of element data, held in a `bitvec::vec::BitVec`.
use vstd::prelude::*;
use bitvec::vec::BitVec;

verus! {

/// A sequence of bits, first bit first, stored in a `bitvec::vec::BitVec`
/// (`usize` storage, `Lsb0` order).
#[verifier::external_body]
#[derive(Debug, PartialEq, Eq, Hash)]
pub struct Bits {
    inner: BitVec,
}

/// The bits that a `Bits` value holds, first bit first.
pub uninterp spec fn bits_of(b: Bits) -> Seq<bool>;

/// The most bits a `BitVec` can hold (`BitSlice::MAX_BITS`, `usize::MAX >> 3`).
pub open spec fn max_bits() -> nat {
    (usize::MAX / 8) as nat
}

impl View for Bits {
    type V = Seq<bool>;

    open spec fn view(&self) -> Seq<bool> {
        bits_of(*self)
    }
}

impl Clone for Bits {
    /// `BitVec::clone`: a bit vector holding the same bits.
    #[verifier::external_body]
    fn clone(&self) -> (r: Self)
        ensures
            bits_of(r) == bits_of(*self),
    {
        Bits { inner: self.inner.clone() }
    }
}

impl Bits {
    /// `BitVec::new`: no bits.
    #[verifier::external_body]
    pub fn new() -> (r: Bits)
        ensures
            bits_of(r) == Seq::<bool>::empty(),
    {
        Bits { inner: BitVec::new() }
    }

    /// `BitVec::len`: the number of bits.
    #[verifier::external_body]
    pub fn len(&self) -> (r: usize)
        ensures
            r == bits_of(*self).len(),
    {
        self.inner.len()
    }

    /// `BitVec::push`: appends one bit. `BitVec` panics when the length would
    /// exceed `usize::MAX >> 3`.
    #[verifier::external_body]
    pub fn push(&mut self, bit: bool)
        requires
            bits_of(*old(self)).len() < max_bits(),
        ensures
            bits_of(*final(self)) == bits_of(*old(self)).push(bit),
    {
        self.inner.push(bit)
    }

    /// Indexing a `BitVec`: the bit at position `i`.
    #[verifier::external_body]
    pub fn get(&self, i: usize) -> (r: bool)
        requires
            i < bits_of(*self).len(),
        ensures
            r == bits_of(*self)[i as int],
    {
        self.inner[i]
    }

    /// The bits of `bools`, in order.
    pub fn from_bools(bools: &[bool]) -> (r: Bits)
        requires
            bools@.len() <= max_bits(),
        ensures
            r@ == bools@,
    {
        let mut r = Bits::new();
        let mut i: usize = 0;
        while i < bools.len()
            invariant
                i <= bools@.len() <= max_bits(),
                r@ == bools@.take(i as int),
            decreases bools@.len() - i,
        {
            r.push(bools[i]);
            assert(bools@.take(i + 1) =~= bools@.take(i as int).push(bools@[i as int]));
            i = i + 1;
        }
        assert(bools@.take(bools@.len() as int) =~= bools@);
        r
    }

    /// This bit vector followed by the bits of `other`.
    pub fn append(&mut self, other: &Bits)
        requires
            old(self)@.len() + other@.len() <= max_bits(),
        ensures
            final(self)@ == old(self)@ + other@,
    {
        let n = other.len();
        let mut i: usize = 0;
        while i < n
            invariant
                n == other@.len(),
                i <= n,
                old(self)@.len() + n <= max_bits(),
                self@ == old(self)@ + other@.take(i as int),
            decreases n - i,
        {
            let b = other.get(i);
            self.push(b);
            assert(other@.take(i + 1) =~= other@.take(i as int).push(other@[i as int]));
            i = i + 1;
        }
        assert(other@.take(n as int) =~= other@);
    }
}

} // verus!
