use vstd::prelude::*;

pub mod algebra;
pub mod matrix;
pub mod ops;

verus! {

/// Whether `n` is a positive power of two.
pub open spec fn is_pow2(n: nat) -> bool
    decreases n,
{
    if n == 0 {
        false
    } else if n == 1 {
        true
    } else {
        n % 2 == 0 && is_pow2(n / 2)
    }
}

/// Tells whether `n` is an exact, positive power of two.
pub fn is_power_of_two(n: usize) -> (r: bool)
    ensures
        r == is_pow2(n as nat),
{
    proof {
        lemma_pow2_bits(n);
    }
    n != 0 && n & (n - 1) == 0
}

proof fn lemma_pow2_bits(n: usize)
    ensures
        is_pow2(n as nat) <==> (n != 0 && n & (n - 1) as usize == 0),
    decreases n,
{
    if n == 0 {
    } else if n == 1 {
        assert(1usize & 0usize == 0) by (bit_vector);
    } else if n % 2 == 0 {
        let h: usize = n / 2;
        assert(h >= 1);
        assert((n & (n - 1) as usize == 0) <==> (h & (h - 1) as usize == 0)) by (bit_vector)
            requires
                n % 2 == 0,
                h == n / 2,
                h >= 1,
        ;
        lemma_pow2_bits(h);
    } else {
        assert(n & (n - 1) as usize != 0) by (bit_vector)
            requires
                n % 2 == 1,
                n >= 3,
        ;
    }
}

} // verus!
