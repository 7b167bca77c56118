//! Padding-free, overwrite-mode sponge hashing over fixed-width permutations.
pub mod constants;
pub mod extensions;
pub mod multi_field;
pub mod permutation;
pub mod sponge;
