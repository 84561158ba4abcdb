use vstd::prelude::*;

verus! {

/// A strictly positive 32-bit count.
#[derive(Debug, Clone, Copy, PartialEq, Eq, Hash, PartialOrd, Ord)]
pub struct Positive {
    value: u32,
}

impl Positive {
    #[verifier::type_invariant]
    spec fn positive(self) -> bool {
        self.value > 0
    }

    pub closed spec fn spec_value(&self) -> u32 {
        self.value
    }

    pub fn new(value: u32) -> (r: Option<Positive>)
        ensures
            r is Some <==> value > 0,
            r matches Some(p) ==> p.spec_value() == value,
    {
        if value > 0 {
            Some(Positive { value })
        } else {
            None
        }
    }

    #[verifier::when_used_as_spec(spec_value)]
    pub fn get(&self) -> (r: u32)
        ensures
            r == self.spec_value(),
            r > 0,
    {
        proof {
            use_type_invariant(self);
        }
        self.value
    }
}

pub open spec fn pow2(n: nat) -> nat
    decreases n,
{
    if n == 0 {
        1
    } else {
        2 * pow2((n - 1) as nat)
    }
}

/// `k` is the ceiling of the base-2 logarithm of `x`: the least `k` with
/// `2^k >= x`.
pub open spec fn is_log2_ceil(x: nat, k: nat) -> bool {
    &&& pow2(k) >= x
    &&& (k == 0 || pow2((k - 1) as nat) < x)
}

/// The number of bits needed to tell `x` values apart: `ceil(log2(x))`.
pub fn log2_ceil(x: Positive) -> (r: u32)
    ensures
        is_log2_ceil(x.spec_value() as nat, r as nat),
{
    let v = x.get();
    let mut p: u64 = 1;
    let mut k: u32 = 0;
    while p < v as u64
        invariant
            p == pow2(k as nat),
            k == 0 || pow2((k - 1) as nat) < v,
            p <= 2 * (v as u64),
            k <= 32,
            v > 0,
        decreases 32 - k,
    {
        proof {
            if k == 32 {
                lemma_pow2_32();
            }
        }
        p = p * 2;
        k = k + 1;
    }
    k
}

pub proof fn lemma_pow2_32()
    ensures
        pow2(32) == 4294967296,
{
    reveal_with_fuel(pow2, 33);
}


/// `pow2` grows with its argument.
pub proof fn lemma_pow2_monotonic(a: nat, b: nat)
    requires
        a <= b,
    ensures
        pow2(a) <= pow2(b),
    decreases b,
{
    if a < b {
        lemma_pow2_monotonic(a, (b - 1) as nat);
    }
}

/// The ceiling of the base-2 logarithm of `x`.
pub open spec fn ceil_log2(x: nat) -> nat {
    choose|k: nat| is_log2_ceil(x, k)
}

/// There is one ceiling of the base-2 logarithm: any `k` with
/// `is_log2_ceil(x, k)` is `ceil_log2(x)`.
pub proof fn lemma_ceil_log2_unique(x: nat, k: nat)
    requires
        is_log2_ceil(x, k),
    ensures
        ceil_log2(x) == k,
{
    let c = ceil_log2(x);
    assert(is_log2_ceil(x, c));
    if c < k {
        lemma_pow2_monotonic(c, (k - 1) as nat);
    } else if k < c {
        lemma_pow2_monotonic(k, (c - 1) as nat);
    }
}

} // verus!
