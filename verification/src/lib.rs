//! SHAKE256: an extendable-output hash built from the Keccak-f[1600]
//! permutation and a sponge absorb/squeeze state machine.

pub mod laws;
pub mod permutation;
pub mod sponge;
