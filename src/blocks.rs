//! How a piece is cut into blocks: whole blocks of `BLOCK_SIZE` bytes first,
//! then the remainder as distinct powers of two, largest first.
use vstd::prelude::*;

use crate::BLOCK_SIZE;

verus! {

/// The number of one bits in `n`.
pub open spec fn popcount(n: nat) -> nat
    decreases n,
{
    if n == 0 {
        0
    } else {
        (n % 2) + popcount(n / 2)
    }
}

/// The largest power of two that is at most `n` (0 for 0).
pub open spec fn high_bit(n: nat) -> nat
    decreases n,
{
    if n <= 1 {
        n
    } else {
        2 * high_bit(n / 2)
    }
}

/// The powers of two whose sum is `r`, largest first.
pub open spec fn binary_parts(r: nat) -> Seq<nat>
    decreases r,
{
    if r == 0 {
        seq![]
    } else {
        binary_parts(r / 2).map_values(|x: nat| 2 * x) + (if r % 2 == 1 {
            seq![1nat]
        } else {
            seq![]
        })
    }
}

/// The lengths of the blocks that a piece of `size` bytes is requested in.
pub open spec fn block_lengths(size: nat) -> Seq<nat> {
    Seq::new(size / (BLOCK_SIZE as nat), |i: int| BLOCK_SIZE as nat) + binary_parts(
        size % (BLOCK_SIZE as nat),
    )
}

/// How many blocks complete a piece of `size` bytes.
pub open spec fn block_goal(size: nat) -> nat {
    size / (BLOCK_SIZE as nat) + popcount(size % (BLOCK_SIZE as nat))
}

/// The sum of a sequence of lengths.
pub open spec fn sum(s: Seq<nat>) -> nat
    decreases s.len(),
{
    if s.len() == 0 {
        0
    } else {
        s[0] + sum(s.drop_first())
    }
}

pub proof fn lemma_binary_parts_len(r: nat)
    ensures
        binary_parts(r).len() == popcount(r),
    decreases r,
{
    if r > 0 {
        lemma_binary_parts_len(r / 2);
    }
}

pub proof fn lemma_high_bit_bounds(n: nat)
    requires
        n >= 1,
    ensures
        1 <= high_bit(n) <= n,
        n < 2 * high_bit(n),
    decreases n,
{
    if n > 1 {
        lemma_high_bit_bounds(n / 2);
    }
}

/// Taking off the largest part leaves the parts of the rest.
pub proof fn lemma_binary_parts_unfold(r: nat)
    requires
        r >= 1,
    ensures
        binary_parts(r) == seq![high_bit(r)] + binary_parts((r - high_bit(r)) as nat),
    decreases r,
{
    let m = r / 2;
    if m == 0 {
        assert(r == 1);
        assert(binary_parts(0) == Seq::<nat>::empty());
        assert(binary_parts(1) =~= seq![1nat]);
    } else {
        lemma_binary_parts_unfold(m);
        lemma_high_bit_bounds(m);
        let hm = high_bit(m);
        let rest = (r - high_bit(r)) as nat;
        assert(high_bit(r) == 2 * hm);
        assert(rest == 2 * ((m - hm) as nat) + r % 2);
        assert(rest / 2 == (m - hm) as nat);
        assert(rest % 2 == r % 2);
        if rest == 0 {
            assert(m == hm && r % 2 == 0);
            assert(binary_parts(r) =~= seq![high_bit(r)] + binary_parts(rest));
        } else {
            assert(binary_parts(r) =~= seq![high_bit(r)] + binary_parts(rest));
        }
    }
}

pub proof fn lemma_binary_parts_sum(r: nat)
    ensures
        sum(binary_parts(r)) == r,
    decreases r,
{
    if r > 0 {
        lemma_binary_parts_unfold(r);
        lemma_high_bit_bounds(r);
        let s = binary_parts(r);
        assert(s.drop_first() =~= binary_parts((r - high_bit(r)) as nat));
        lemma_binary_parts_sum((r - high_bit(r)) as nat);
    }
}

/// The block lengths of a piece add up to its size, and there are exactly
/// `block_goal(size)` of them.
pub proof fn lemma_block_lengths(size: nat)
    ensures
        block_lengths(size).len() == block_goal(size),
        sum(block_lengths(size)) == size,
    decreases size,
{
    lemma_binary_parts_len(size % (BLOCK_SIZE as nat));
    if size >= BLOCK_SIZE as nat {
        let rest = (size - BLOCK_SIZE as nat) as nat;
        lemma_block_lengths(rest);
        assert(size / (BLOCK_SIZE as nat) == rest / (BLOCK_SIZE as nat) + 1);
        assert(size % (BLOCK_SIZE as nat) == rest % (BLOCK_SIZE as nat));
        assert(block_lengths(size).drop_first() =~= block_lengths(rest));
    } else {
        assert(block_lengths(size) =~= binary_parts(size));
        lemma_binary_parts_sum(size);
    }
}

/// The number of one bits in `n`.
pub fn count_ones(n: u32) -> (r: u32)
    ensures
        r == popcount(n as nat),
{
    let mut m: u32 = n;
    let mut c: u32 = 0;
    proof {
        lemma_popcount_le(n as nat);
    }
    while m > 0
        invariant
            c + popcount(m as nat) == popcount(n as nat),
            popcount(n as nat) <= n,
        decreases m,
    {
        c = c + m % 2;
        m = m / 2;
    }
    c
}

pub proof fn lemma_popcount_le(n: nat)
    ensures
        popcount(n) <= n,
    decreases n,
{
    if n > 0 {
        lemma_popcount_le(n / 2);
    }
}

/// The largest power of two that is at most `n`.
pub fn highest_power_of_two(n: u32) -> (p: u32)
    requires
        n > 0,
    ensures
        p == high_bit(n as nat),
{
    let mut m: u32 = n;
    let mut p: u32 = 1;
    while m >= 2
        invariant
            1 <= m <= n,
            1 <= p,
            p * high_bit(m as nat) == high_bit(n as nat),
            p * m <= n,
        decreases m,
    {
        assert(high_bit(m as nat) == 2 * high_bit((m / 2) as nat));
        assert(p * high_bit(m as nat) == (2 * p) * high_bit((m / 2) as nat)) by (nonlinear_arith)
            requires
                high_bit(m as nat) == 2 * high_bit((m / 2) as nat),
        ;
        assert((2 * p) * (m / 2) <= p * m) by (nonlinear_arith)
            requires
                m >= 2,
                p >= 1,
        ;
        assert(2 * p <= p * m) by (nonlinear_arith)
            requires
                m >= 2,
                p >= 1,
        ;
        m = m / 2;
        p = p * 2;
    }
    p
}

/// How many blocks complete a piece of `size` bytes: one per whole block,
/// and one per one bit of what is left below `BLOCK_SIZE`.
pub fn block_count_goal(size: u32) -> (r: u32)
    ensures
        r == block_goal(size as nat),
{
    let r = count_ones(size % BLOCK_SIZE);
    proof {
        lemma_popcount_le((size % BLOCK_SIZE) as nat);
    }
    size / BLOCK_SIZE + r
}

} // verus!
