use vstd::prelude::*;

verus! {

/// A fixed, stateless permutation of a sponge state.
///
/// `spec_permute` is the mathematical function the permutation computes;
/// `permute` must return exactly that value, so the same input always gives
/// the same output.
pub trait CryptographicPermutation<T>: Sized {
    spec fn spec_permute(&self, input: T) -> T;

    fn permute(&self, input: T) -> (r: T)
        ensures
            r == self.spec_permute(input),
    ;
}

} // verus!
