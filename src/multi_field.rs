use core::marker::PhantomData;
use p3_field::{Field, PrimeField, PrimeField32};
use vstd::arithmetic::div_mod::{lemma_fundamental_div_mod, lemma_fundamental_div_mod_converse};
use vstd::prelude::*;
use vstd::slice::slice_subrange;

use crate::permutation::CryptographicPermutation;
use crate::sponge::{
    absorb_and_squeeze, chunk_count, lemma_empty_input_digest, lemma_permutation_count,
    permutation_inputs, sponge_digest,
};

verus! {

/// Relies on `p3_field::Field::order`: whether `F` has fewer elements than `PF`.
#[verifier::external_body]
fn order_less<F: Field, PF: Field>() -> (r: bool) {
    F::order() < PF::order()
}

/// Relies on `p3_field::Field::bits`: the bit-width of the elements of `F`.
#[verifier::external_body]
fn field_bits<F: Field>() -> (r: usize) {
    F::bits()
}

/// Relies on `p3_field::reduce_32`: folds `digits` as base-2^32 digits into one `PF`.
#[verifier::external_body]
fn reduce_digits<F: PrimeField32, PF: PrimeField>(digits: &[F]) -> (r: PF) {
    p3_field::reduce_32(digits)
}

/// The number of input elements packed into one state cell, or an error
/// message when the small field does not fit strictly inside the large one.
///
/// `f_order_less` tells whether the small field has fewer elements than the
/// large one; `pf_bits` and `f_bits` are the two fields' bit-widths.
pub fn packing_ratio(f_order_less: bool, pf_bits: usize, f_bits: usize) -> (r: Result<usize, String>)
    ensures
        r is Ok <==> (f_order_less && f_bits > 0 && f_bits <= pf_bits),
        r matches Ok(k) ==> k == pf_bits / f_bits && k >= 1,
        r matches Err(m) ==> m@ == (if !f_order_less {
            "F::order() must be less than PF::order()"@
        } else {
            "F::bits() must be positive and at most PF::bits()"@
        }),
{
    proof {
        if f_bits > 0 && f_bits <= pf_bits {
            assert(pf_bits / f_bits >= 1) by (nonlinear_arith)
                requires
                    f_bits > 0,
                    f_bits <= pf_bits,
            ;
        }
    }
    if !f_order_less {
        return Err(String::from_str("F::order() must be less than PF::order()"));
    }
    if f_bits == 0 || pf_bits < f_bits {
        return Err(String::from_str("F::bits() must be positive and at most PF::bits()"));
    }
    Ok(pf_bits / f_bits)
}

/// The empty input packs into no cells, so its cross-field digest is `out`
/// copies of the initial cell value.
pub proof fn lemma_empty_input_cross_field<PF: Copy, P: CryptographicPermutation<[PF; W]>, const W: usize>(
    perm: P,
    rate: nat,
    out: nat,
    k: nat,
    init: PF,
    cells: Seq<PF>,
)
    requires
        out <= W,
        k >= 1,
        cells.len() == chunk_count(0, k),
    ensures
        sponge_digest(perm, rate, out, init, cells) == Seq::new(out, |i: int| init),
{
    lemma_fundamental_div_mod_converse(0, k as int, 0, 0);
    assert(cells =~= Seq::<PF>::empty());
    lemma_empty_input_digest::<PF, P, W>(perm, rate, out, init);
}

/// When the input length is a multiple of `k * rate`, the `chunk_count(n, k)`
/// packed cells make the permutation run exactly `n / (k * rate)` times.
pub proof fn lemma_cross_field_permutation_count<PF, P: CryptographicPermutation<[PF; W]>, const W: usize>(
    perm: P,
    rate: nat,
    k: nat,
    n: nat,
    state: [PF; W],
    cells: Seq<PF>,
)
    requires
        k >= 1,
        rate >= 1,
        n % (k * rate) == 0,
        cells.len() == chunk_count(n, k),
    ensures
        permutation_inputs(perm, rate, state, cells).len() == n / (k * rate),
{
    let kr = (k * rate) as int;
    assert(kr >= 1) by (nonlinear_arith)
        requires
            k >= 1,
            rate >= 1,
            kr == k * rate,
    ;
    lemma_fundamental_div_mod(n as int, kr);
    let q = (n as int) / kr;
    assert(n == (q * rate) * k + 0) by (nonlinear_arith)
        requires
            n == kr * q + 0,
            kr == k * rate,
    ;
    lemma_fundamental_div_mod_converse(n as int, k as int, q * rate, 0);
    assert(cells.len() == q * rate);
    lemma_fundamental_div_mod_converse(q * rate, rate as int, q, 0);
    lemma_permutation_count(perm, rate, state, cells);
}

/// A padding-free, overwrite-mode sponge function that operates natively over PF but accepts elements
/// of F: PrimeField32.
///
/// `WIDTH` is the sponge's rate plus the sponge's capacity.
#[derive(Debug)]
pub struct MultiField32PaddingFreeSponge<F, PF, P, const WIDTH: usize, const RATE: usize, const OUT: usize> {
    permutation: P,
    num_f_elms: usize,
    _phantom: PhantomData<(F, PF)>,
}

impl<F, PF, P, const WIDTH: usize, const RATE: usize, const OUT: usize> MultiField32PaddingFreeSponge<F, PF, P, WIDTH, RATE, OUT> {
    /// The permutation this sponge applies.
    pub closed spec fn spec_permutation(&self) -> P {
        self.permutation
    }

    /// How many elements of `F` are packed into one state cell.
    pub closed spec fn spec_num_f_elms(&self) -> nat {
        self.num_f_elms as nat
    }

    /// Builds the sponge, or fails when `F` has at least as many elements as `PF`.
    pub fn new(permutation: P) -> (r: Result<Self, String>)
        where
            F: PrimeField32,
            PF: Field,
        ensures
            r matches Ok(s) ==> s.spec_permutation() == permutation && s.spec_num_f_elms() >= 1,
    {
        let f_order_less = order_less::<F, PF>();
        let pf_bits = field_bits::<PF>();
        let f_bits = field_bits::<F>();
        match packing_ratio(f_order_less, pf_bits, f_bits) {
            Ok(num_f_elms) => Ok(Self { permutation, num_f_elms, _phantom: PhantomData }),
            Err(e) => Err(e),
        }
    }

    /// Hashes `input`: each run of `num_f_elms` elements (the last one possibly
    /// shorter) is reduced to one `PF` cell, and the cells are absorbed `RATE`
    /// at a time into a state that starts with `PF`'s default value in every cell.
    pub fn hash_iter(&self, input: &[F]) -> (r: [PF; OUT])
        where
            F: PrimeField32,
            PF: PrimeField + Default + Copy,
            P: CryptographicPermutation<[PF; WIDTH]>,
        requires
            RATE <= WIDTH,
            OUT <= WIDTH,
            self.spec_num_f_elms() >= 1,
        ensures
            exists|d: PF, cells: Seq<PF>|
                cells.len() == chunk_count(input@.len(), self.spec_num_f_elms())
                && r@ == #[trigger] sponge_digest(self.spec_permutation(), RATE as nat, OUT as nat, d, cells),
    {
        let k = self.num_f_elms;
        let n: usize = input.len();
        let mut cells: Vec<PF> = Vec::new();
        let mut pos: usize = 0;
        proof {
            lemma_fundamental_div_mod_converse(0, k as int, 0, 0);
            assert(0 * k == 0);
        }
        while pos < n
            invariant
                k >= 1,
                n == input@.len(),
                pos <= n,
                pos < n ==> pos == cells@.len() * k,
                pos == n ==> cells@.len() == chunk_count(n as nat, k as nat),
            decreases n - pos,
        {
            let ghost c = cells@.len();
            let end: usize = if n - pos < k { n } else { pos + k };
            let chunk = slice_subrange(input, pos, end);
            cells.push(reduce_digits::<F, PF>(chunk));
            proof {
                assert((c + 1) * k == c * k + k) by (nonlinear_arith);
                if end == n {
                    if n - pos < k {
                        lemma_fundamental_div_mod_converse(n as int, k as int, c as int, (n - pos) as int);
                    } else {
                        lemma_fundamental_div_mod_converse(n as int, k as int, (c + 1) as int, 0);
                    }
                }
            }
            pos = end;
        }
        let init = PF::default();
        let r = absorb_and_squeeze::<PF, P, WIDTH, RATE, OUT>(&self.permutation, init, cells.as_slice());
        assert(r@ == sponge_digest(self.spec_permutation(), RATE as nat, OUT as nat, init, cells@));
        r
    }
}

} // verus!
