use std::cell::Cell;
use std::rc::Rc;

use p3_baby_bear::BabyBear;
use p3_field::{reduce_32, PrimeCharacteristicRing};
use p3_goldilocks::Goldilocks;
use p3_sponge::extensions::{Mersenne31CubicParams, MERSENNE31_ORDER};
use p3_sponge::multi_field::{packing_ratio, MultiField32PaddingFreeSponge};
use p3_sponge::permutation::CryptographicPermutation;

/// Adds one to every cell and counts how often it ran.
#[derive(Clone)]
struct AddOne {
    calls: Rc<Cell<usize>>,
}

impl AddOne {
    fn new() -> Self {
        AddOne {
            calls: Rc::new(Cell::new(0)),
        }
    }
}

impl CryptographicPermutation<[Goldilocks; 4]> for AddOne {
    fn spec_permute(&self, input: [Goldilocks; 4]) -> [Goldilocks; 4] {
        input.map(|x| x + Goldilocks::ONE)
    }

    fn permute(&self, input: [Goldilocks; 4]) -> [Goldilocks; 4] {
        self.calls.set(self.calls.get() + 1);
        input.map(|x| x + Goldilocks::ONE)
    }
}

type Multi = MultiField32PaddingFreeSponge<BabyBear, Goldilocks, AddOne, 4, 2, 2>;

fn babies(values: &[u32]) -> Vec<BabyBear> {
    values.iter().map(|&v| BabyBear::new(v)).collect()
}

#[test]
fn packing_ratio_divides_bit_widths() {
    assert_eq!(packing_ratio(true, 64, 31), Ok(2));
    assert_eq!(packing_ratio(true, 254, 31), Ok(8));
    assert_eq!(packing_ratio(true, 31, 31), Ok(1));
}

#[test]
fn packing_ratio_rejects_small_large_field() {
    assert!(packing_ratio(false, 64, 31).is_err());
    assert!(packing_ratio(false, 31, 31).is_err());
}

#[test]
fn packing_ratio_rejects_impossible_widths() {
    assert!(packing_ratio(true, 64, 0).is_err());
    assert!(packing_ratio(true, 30, 31).is_err());
}

#[test]
fn cross_field_new_fails_on_equal_orders() {
    let r = MultiField32PaddingFreeSponge::<BabyBear, BabyBear, AddOne, 4, 2, 2>::new(AddOne::new());
    match r {
        Err(msg) => assert_eq!(msg, "F::order() must be less than PF::order()"),
        Ok(_) => panic!("construction must fail"),
    }
}

#[test]
fn cross_field_new_succeeds_on_larger_field() {
    assert!(Multi::new(AddOne::new()).is_ok());
}

#[test]
fn cross_field_empty_input_gives_default_digest() {
    let perm = AddOne::new();
    let sponge = Multi::new(perm.clone()).unwrap();
    let out = sponge.hash_iter(&[]);
    assert_eq!(out, [Goldilocks::default(); 2]);
    assert_eq!(perm.calls.get(), 0);
}

#[test]
fn cross_field_aligned_input_permutes_once_per_block() {
    let perm = AddOne::new();
    let sponge = Multi::new(perm.clone()).unwrap();
    let _ = sponge.hash_iter(&babies(&[1, 2, 3, 4, 5, 6, 7, 8]));
    assert_eq!(perm.calls.get(), 2);
}

#[test]
fn cross_field_partial_chunk_reduces() {
    let perm = AddOne::new();
    let sponge = Multi::new(perm.clone()).unwrap();
    let out = sponge.hash_iter(&babies(&[1, 2, 3, 4, 5]));
    assert_eq!(perm.calls.get(), 2);
    let c0: Goldilocks = reduce_32(&babies(&[1, 2]));
    let c1: Goldilocks = reduce_32(&babies(&[3, 4]));
    let c2: Goldilocks = reduce_32(&babies(&[5]));
    assert_eq!(c0, Goldilocks::new(1 + (2u64 << 32)));
    assert_eq!(c2, Goldilocks::new(5));
    assert_eq!(out, [c2 + Goldilocks::ONE, c1 + Goldilocks::TWO]);
    assert_eq!(out, [Goldilocks::new(6), Goldilocks::new(3 + (4u64 << 32) + 2)]);
}

#[test]
fn cross_field_hash_is_deterministic() {
    let sponge = Multi::new(AddOne::new()).unwrap();
    let input = babies(&[5, 4, 3, 2, 1]);
    assert_eq!(sponge.hash_iter(&input), sponge.hash_iter(&input));
}

#[test]
fn cubic_extension_parameters() {
    assert_eq!(Mersenne31CubicParams::W, 5);
    assert_eq!(Mersenne31CubicParams::GEN, [10, 1, 0]);
    for r in Mersenne31CubicParams::ORDER_D_SUBGROUP {
        let p = MERSENNE31_ORDER as u64;
        let r = r as u64;
        assert_eq!(r * r % p * r % p, 1);
    }
}
