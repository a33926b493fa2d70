//! Block-subsidy policies: a pure function from block height to the value
//! newly issued to the block author.

use vstd::prelude::*;

verus! {

/// Number of blocks after which the subsidy is cut in half.
pub const HALVING_EVERY_BLOCKS: u64 = 210_000;

/// Subsidy paid per block before the first halving.
pub const INITIAL_ISSUANCE: u128 = 50;

/// The subsidy owed at a given block height under the halving schedule:
/// the initial issuance shifted right once per completed halving interval,
/// and exactly zero once the shift distance leaves the integer width.
pub open spec fn halving_issuance(block: u64) -> u128 {
    if block / HALVING_EVERY_BLOCKS >= 64 {
        0
    } else {
        INITIAL_ISSUANCE >> (block / HALVING_EVERY_BLOCKS) as u128
    }
}

/// A block-subsidy policy: a stateless, total function of the block height.
pub trait Issuance {
    /// The value this policy promises at each height.
    spec fn spec_issuance(block: u64) -> u128;

    /// Computes the subsidy for the given block height.
    fn issuance(block: u64) -> (subsidy: u128)
        ensures
            subsidy == Self::spec_issuance(block),
    ;
}

/// The Bitcoin-style schedule: 50 per block, halved every 210,000 blocks.
pub struct HalvingIssuance;

impl Issuance for HalvingIssuance {
    open spec fn spec_issuance(block: u64) -> u128 {
        halving_issuance(block)
    }

    fn issuance(block: u64) -> (subsidy: u128) {
        let halvings: u64 = block / HALVING_EVERY_BLOCKS;

        // The right shift is undefined at this integer width once 64
        // halvings have passed, so the subsidy is pinned to zero there.
        if halvings >= 64 {
            return 0;
        }

        INITIAL_ISSUANCE >> (halvings as u128)
    }
}

/// Below the first halving boundary the subsidy is the full initial issuance.
pub proof fn lemma_issuance_initial(block: u64)
    requires
        block < HALVING_EVERY_BLOCKS,
    ensures
        halving_issuance(block) == INITIAL_ISSUANCE,
{
    assert(block / HALVING_EVERY_BLOCKS == 0);
    assert(50u128 >> 0u128 == 50u128) by (bit_vector);
}

/// The subsidy halves every halving interval: one interval later it is
/// exactly half (rounded down), at every height.
pub proof fn lemma_issuance_halves(block: u64)
    requires
        block + HALVING_EVERY_BLOCKS <= u64::MAX,
    ensures
        halving_issuance((block + HALVING_EVERY_BLOCKS) as u64) == halving_issuance(block) / 2,
{
    let next = (block + HALVING_EVERY_BLOCKS) as u64;
    assert(next as int / HALVING_EVERY_BLOCKS as int == block as int / HALVING_EVERY_BLOCKS as int
        + 1) by {
        vstd::arithmetic::div_mod::lemma_hoist_over_denominator(
            block as int,
            1,
            HALVING_EVERY_BLOCKS as nat,
        );
    }
    let k = block / HALVING_EVERY_BLOCKS;
    if k >= 64 {
        assert(halving_issuance(next) == 0);
        assert(halving_issuance(block) == 0);
    } else if k == 63 {
        assert(halving_issuance(next) == 0);
        assert(50u128 >> 63u128 == 0) by (bit_vector);
    } else {
        let kk = k as u128;
        assert(kk < 63 ==> 50u128 >> (kk + 1) == (50u128 >> kk) / 2) by (bit_vector);
    }
}

/// From the 64th halving interval on, the subsidy is exactly zero.
pub proof fn lemma_issuance_exhausted(block: u64)
    requires
        block >= 64 * HALVING_EVERY_BLOCKS,
    ensures
        halving_issuance(block) == 0,
{
    assert(block / HALVING_EVERY_BLOCKS >= 64) by {
        vstd::arithmetic::div_mod::lemma_div_multiples_vanish(64, HALVING_EVERY_BLOCKS as int);
        vstd::arithmetic::div_mod::lemma_div_is_ordered(
            64 * HALVING_EVERY_BLOCKS as int,
            block as int,
            HALVING_EVERY_BLOCKS as int,
        );
    }
}

/// A policy with no subsidy at all, for chains that only recycle fees.
impl Issuance for () {
    open spec fn spec_issuance(block: u64) -> u128 {
        0
    }

    fn issuance(_block: u64) -> (subsidy: u128) {
        0
    }
}

} // verus!
