//! Properties of the SHAKE256 output stream, proved once and for all
//! inputs: the stream is extendable (a shorter output is a prefix of a
//! longer one), deterministic, and an input of exactly one rate absorbs in
//! two permutations (one for the data block, one for the padding block).

use vstd::prelude::*;
use crate::permutation::keccak_f;
use crate::sponge::RATE;
use crate::sponge::absorb_blocks;
use crate::sponge::absorbed_state;
use crate::sponge::lemma_squeeze_at_prefix;
use crate::sponge::pad_suffix;
use crate::sponge::shake256;
use crate::sponge::xor_block;
use crate::sponge::zero_state;

verus! {

/// Extendability: for the same input, an output of `n` bytes is a prefix of
/// an output of `m >= n` bytes. Squeezing is a resumable stream, not a
/// fresh computation per length.
pub proof fn lemma_extendability(input: Seq<u8>, n: nat, m: nat)
    requires
        n <= m,
    ensures
        shake256(input, n) == shake256(input, m).take(n as int),
{
    lemma_squeeze_at_prefix(absorbed_state(input), 0, n, m);
}

/// Determinism: equal inputs and equal requested lengths give equal output.
pub proof fn lemma_determinism(a: Seq<u8>, b: Seq<u8>, n: nat)
    requires
        a == b,
    ensures
        shake256(a, n) == shake256(b, n),
{
}

/// An input of exactly one rate (136 bytes) absorbs in exactly two
/// permutation steps: one for the full data block and one for the separate,
/// full-size padding block.
pub proof fn lemma_rate_boundary(input: Seq<u8>)
    requires
        input.len() == RATE,
    ensures
        absorbed_state(input) == keccak_f(
            xor_block(
                keccak_f(xor_block(zero_state(), input)),
                pad_suffix(input.len()),
            ),
        ),
{
    let pad = pad_suffix(input.len());
    assert(pad.len() == RATE);
    let padded = input + pad;
    assert(padded.take(RATE as int) =~= input);
    assert(padded.skip(RATE as int) =~= pad);
    let s1 = keccak_f(xor_block(zero_state(), input));
    assert(absorb_blocks(zero_state(), padded) == absorb_blocks(s1, pad));
    crate::sponge::lemma_absorb_one_block(s1, pad);
}

} // verus!
