use vstd::prelude::*;

verus! {

// The internal and external constant traits are split because the external
// constants depend on the state width and the internal ones do not.
/// Data needed to generate constants for the internal rounds of the Poseidon2 permutation.
pub trait Poseidon2InternalPackedConstants<F>: Sync + Clone {
    // In the scalar case this is the field itself, but it may differ for packed fields.
    type ConstantsType: Clone + core::fmt::Debug + Sync;

    fn convert_from_field(internal_constants: Vec<F>) -> Self;
}

/// Data needed to generate constants for the external rounds of the Poseidon2 permutation.
pub trait Poseidon2ExternalPackedConstants<F, const WIDTH: usize>: Sync + Clone {
    // In the scalar case this is `[F; WIDTH]`, but it may differ for packed fields.
    type ConstantsType: Clone + core::fmt::Debug + Sync;

    fn convert_from_field_array(external_constants: [Vec<[F; WIDTH]>; 2]) -> Self;
}

} // verus!
