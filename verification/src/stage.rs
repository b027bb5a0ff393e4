//! The animated centrepiece: a ring of bars that react to the microphone, drawn
//! behind the round record button.
use vstd::arithmetic::div_mod::{
    lemma_mod_multiples_vanish, lemma_mul_mod_noop_left, lemma_small_mod,
};
use vstd::prelude::*;

verus! {

/// Bars on each side of the button. They are mirrored, so the whole thing reads
/// as one symmetrical shape rather than two independent meters.
pub const BARS_PER_SIDE: usize = 4;

/// A number with its bits folded over each other.
pub open spec fn stirred(x: u32) -> u32 {
    let folded = x ^ (x >> 13);
    let spread = folded.wrapping_mul(1_274_126_177);
    spread ^ (spread >> 16)
}

/// Deterministic per-bar jitter, in ten-thousandths, so the row looks irregular but
/// identical on every run. Cheaper than pulling in an RNG for fifteen numbers.
pub fn noise(index: usize, salt: u32) -> (jitter: u32)
    ensures
        jitter == stirred(
            (index as u32).wrapping_mul(2_654_435_761).wrapping_add(salt.wrapping_mul(40_503)),
        ) % 10_000,
        jitter < 10_000,
{
    #[verifier::truncate]
    let first: u32 = index as u32;
    let mut x: u32 = first.wrapping_mul(2_654_435_761).wrapping_add(salt.wrapping_mul(40_503));
    x = x ^ (x >> 13);
    x = x.wrapping_mul(1_274_126_177);
    x = x ^ (x >> 16);
    x % 10_000
}

/// A number from one that was stirred: the same steps back.
pub open spec fn unstirred(x: u32) -> u32 {
    let spread = x ^ (x >> 16);
    let folded = spread.wrapping_mul(1_406_485_665);
    folded ^ (folded >> 13) ^ (folded >> 26)
}

proof fn spreading_can_be_undone(x: u32)
    ensures
        x.wrapping_mul(1_274_126_177).wrapping_mul(1_406_485_665) == x,
{
    let whole: int = 0x1_0000_0000;
    let spread = x * 1_274_126_177;
    assert(x.wrapping_mul(1_274_126_177) == spread % whole);
    lemma_mul_mod_noop_left(spread, 1_406_485_665, whole);
    assert((spread % whole) * 1_406_485_665 % whole == spread * 1_406_485_665 % whole);
    // The two multiply to one more than a multiple of the whole.
    assert(1_274_126_177 * 1_406_485_665 == 417_241_874 * 0x1_0000_0000 + 1);
    assert(spread * 1_406_485_665 == x + whole * (x * 417_241_874)) by (nonlinear_arith)
        requires
            spread == x * 1_274_126_177,
            whole == 0x1_0000_0000,
    ;
    lemma_mod_multiples_vanish(x * 417_241_874, x as int, whole);
    lemma_small_mod(x as nat, whole as nat);
}

/// Stirring loses nothing: every number can be had back from what it was stirred to, so
/// no two are stirred alike.
pub proof fn stirring_loses_nothing(x: u32)
    ensures
        unstirred(stirred(x)) == x,
{
    let folded = x ^ (x >> 13);
    let spread = folded.wrapping_mul(1_274_126_177);
    let out = spread ^ (spread >> 16);
    assert(out ^ (out >> 16) == spread) by (bit_vector)
        requires
            out == spread ^ (spread >> 16),
    ;
    spreading_can_be_undone(folded);
    assert(folded ^ (folded >> 13) ^ (folded >> 26) == x) by (bit_vector)
        requires
            folded == x ^ (x >> 13),
    ;
}

} // verus!
