use vstd::prelude::*;
use fixedbitset::FixedBitSet;

verus! {

#[verifier::external_type_specification]
#[verifier::external_body]
pub struct ExFixedBitSet(FixedBitSet);

/// The bits that are set in a bitset.
pub uninterp spec fn bits(s: FixedBitSet) -> Set<int>;

/// The number of bits a bitset was made with; only these can be set.
pub uninterp spec fn bit_len(s: FixedBitSet) -> nat;

/// Relies on FixedBitSet::with_capacity: `n` bits, all clear.
#[verifier::external_body]
pub fn new_mask(n: usize) -> (r: FixedBitSet)
    ensures
        bits(r) == Set::<int>::empty(),
        bit_len(r) == n,
{
    FixedBitSet::with_capacity(n)
}

/// Relies on FixedBitSet::insert: sets one bit, and panics on a bit past the
/// length.
#[verifier::external_body]
pub fn set_bit(s: &mut FixedBitSet, bit: usize)
    requires
        bit < bit_len(*old(s)),
    ensures
        bits(*final(s)) == bits(*old(s)).insert(bit as int),
        bit_len(*final(s)) == bit_len(*old(s)),
{
    s.insert(bit)
}

/// Relies on FixedBitSet::clear: every bit clear, the length kept.
#[verifier::external_body]
pub fn clear_bits(s: &mut FixedBitSet)
    ensures
        bits(*final(s)) == Set::<int>::empty(),
        bit_len(*final(s)) == bit_len(*old(s)),
{
    s.clear()
}

/// Relies on FixedBitSet::intersection_count: the number of bits set in both.
#[verifier::external_body]
pub fn common_count(a: &FixedBitSet, b: &FixedBitSet) -> (r: usize)
    ensures
        (r == 0) == bits(*a).disjoint(bits(*b)),
{
    a.intersection_count(b)
}

/// A mask is effectively blocked when it meets `blocked` and misses
/// `unblocked`.
pub open spec fn effective_blocked(mask: Set<int>, blocked: Set<int>, unblocked: Set<int>) -> bool {
    !mask.disjoint(blocked) && mask.disjoint(unblocked)
}

pub fn should_block_mask(mask: &FixedBitSet, blocked: &FixedBitSet, unblocked: &FixedBitSet) -> (r: bool)
    ensures
        r == effective_blocked(bits(*mask), bits(*blocked), bits(*unblocked)),
{
    common_count(mask, blocked) > 0 && common_count(mask, unblocked) == 0
}

} // verus!
