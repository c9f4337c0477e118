//! The random targets of the bars that twinkle on the indicator.
use vstd::prelude::*;

verus! {

/// The number of bars.
pub const BAR_COUNT: usize = 25;

/// One round of mixing: the upper bits folded onto the lower ones.
pub open spec fn fold(x: u64) -> u64 {
    x ^ (x >> 33)
}

/// The product in 64 bits.
pub open spec fn product(x: u64, y: u64) -> u64 {
    ((x * y) % 0x1_0000_0000_0000_0000) as u64
}

/// The sum in 64 bits.
pub open spec fn sum(x: u64, y: u64) -> u64 {
    ((x + y) % 0x1_0000_0000_0000_0000) as u64
}

/// The 53 random bits for a seed: a linear congruential step, and two folds around a product.
pub open spec fn twinkle(seed: u64) -> u64 {
    let a = sum(product(seed, 6364136223846793005), 1442695040888963407);
    fold(product(fold(a), 0xff51afd7ed558ccd)) >> 11
}

/// The bits for a seed are those of a multiplication and an addition that wrap at 64 bits, and of
/// another multiplication between two folds of the upper 31 bits onto the lower ones, without the
/// lowest 11.
pub proof fn twinkles_wrap_at_64_bits(seed: u64, a: u64, b: u64)
    requires
        (seed * 6364136223846793005 + 1442695040888963407 - a) % 0x1_0000_0000_0000_0000 == 0,
        ((a ^ (a >> 33)) * 0xff51afd7ed558ccd - b) % 0x1_0000_0000_0000_0000 == 0,
    ensures
        twinkle(seed) == (b ^ (b >> 33)) >> 11,
{
    let m: int = 0x1_0000_0000_0000_0000;
    let p = seed * 6364136223846793005;
    assert(product(seed, 6364136223846793005) == p % m);
    assert(a == (p + 1442695040888963407) % m);
    assert(sum(product(seed, 6364136223846793005), 1442695040888963407) == a);
    let q = (a ^ (a >> 33)) * 0xff51afd7ed558ccd;
    assert(b == q % m);
}

/// The 53 random bits for a seed; divided by two to the 53rd they are a fraction below one.
pub fn twinkle_bits(seed: u64) -> (r: u64)
    ensures
        r == twinkle(seed),
        r < 0x20_0000_0000_0000,
{
    let mut x: u64 = seed.wrapping_mul(6364136223846793005).wrapping_add(1442695040888963407);
    x = x ^ (x >> 33);
    x = x.wrapping_mul(0xff51afd7ed558ccd);
    x = x ^ (x >> 33);
    assert(x >> 11 < 0x20_0000_0000_0000) by (bit_vector);
    x >> 11
}

/// The random bits of all bars, for seeds that follow each other.
pub fn twinkle_targets(seed: u64) -> (r: Vec<u64>)
    requires
        seed + BAR_COUNT - 1 <= u64::MAX,
    ensures
        r@ == Seq::new(BAR_COUNT as nat, |i: int| twinkle((seed + i) as u64)),
{
    let mut r: Vec<u64> = Vec::new();
    let mut i: usize = 0;
    while i < BAR_COUNT
        invariant
            seed + BAR_COUNT - 1 <= u64::MAX,
            0 <= i <= BAR_COUNT,
            r@.len() == i,
            forall|j: int| 0 <= j < i ==> #[trigger] r@[j] == twinkle((seed + j) as u64),
        decreases BAR_COUNT - i,
    {
        r.push(twinkle_bits(seed + i as u64));
        i = i + 1;
    }
    assert(r@ =~= Seq::new(BAR_COUNT as nat, |i: int| twinkle((seed + i) as u64)));
    r
}

} // verus!
