use vstd::prelude::*;

verus! {

/// The order of the Mersenne-31 prime field, `2^31 - 1`.
pub const MERSENNE31_ORDER: u32 = 0x7fff_ffff;

/// Parameters of the cubic extension of Mersenne-31 by `x^3 - 5`, each
/// element given by its canonical value in `0..2^31 - 1`.
#[derive(Debug)]
pub struct Mersenne31CubicParams;

impl Mersenne31CubicParams {
    /// The non-residue `W` with `x^3 = W`.
    pub const W: u32 = 5;

    /// The subgroup of order 3: `1` and the two primitive cube roots of unity.
    pub const ORDER_D_SUBGROUP: [u32; 3] = [1, 1513477735, 634005911];

    /// A multiplicative generator of the extension field, `10 + x`.
    pub const GEN: [u32; 3] = [10, 1, 0];
}

} // verus!
