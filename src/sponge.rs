use vstd::arithmetic::div_mod::{lemma_fundamental_div_mod, lemma_fundamental_div_mod_converse};
use vstd::array::*;
use vstd::prelude::*;

use crate::permutation::CryptographicPermutation;

verus! {

broadcast use vstd::array::group_array_axioms;

/// The state `state` with its first `block.len()` cells overwritten by `block`.
pub open spec fn write_block<E, const W: usize>(state: [E; W], block: Seq<E>) -> [E; W]
    decreases block.len(),
{
    if block.len() == 0 {
        state
    } else {
        spec_array_update(write_block(state, block.drop_last()), block.len() - 1, block.last())
    }
}

/// The number of input elements absorbed in one round: a full block of `rate`,
/// or what is left of the input when that is less.
pub open spec fn block_len(rate: nat, remaining: nat) -> nat {
    if remaining < rate {
        remaining
    } else {
        rate
    }
}

/// The states handed to the permutation, in order, while `input` is absorbed
/// into `state` in blocks of `rate` elements.
pub open spec fn permutation_inputs<E, P: CryptographicPermutation<[E; W]>, const W: usize>(
    perm: P,
    rate: nat,
    state: [E; W],
    input: Seq<E>,
) -> Seq<[E; W]>
    decreases input.len(),
{
    if input.len() == 0 || rate == 0 {
        seq![]
    } else {
        let k = block_len(rate, input.len());
        let s = write_block(state, input.take(k as int));
        seq![s] + permutation_inputs(perm, rate, perm.spec_permute(s), input.skip(k as int))
    }
}

/// The state reached after absorbing `input` into `state` in blocks of `rate`
/// elements, permuting after each non-empty block.
pub open spec fn absorb<E, P: CryptographicPermutation<[E; W]>, const W: usize>(
    perm: P,
    rate: nat,
    state: [E; W],
    input: Seq<E>,
) -> [E; W]
    decreases input.len(),
{
    if input.len() == 0 || rate == 0 {
        state
    } else {
        let k = block_len(rate, input.len());
        let s = write_block(state, input.take(k as int));
        absorb(perm, rate, perm.spec_permute(s), input.skip(k as int))
    }
}

/// The digest of `input`: the first `out` cells of the state reached from a
/// state whose every cell holds `init`.
pub open spec fn sponge_digest<E: Copy, P: CryptographicPermutation<[E; W]>, const W: usize>(
    perm: P,
    rate: nat,
    out: nat,
    init: E,
    input: Seq<E>,
) -> Seq<E> {
    absorb(perm, rate, spec_array_fill_for_copy_type::<E, W>(init), input)@.take(out as int)
}

/// Writing a block replaces the first cells and keeps the others.
pub proof fn lemma_write_block<E, const W: usize>(state: [E; W], block: Seq<E>)
    requires
        block.len() <= W,
    ensures
        write_block(state, block)@ == block + state@.subrange(block.len() as int, W as int),
    decreases block.len(),
{
    if block.len() > 0 {
        lemma_write_block(state, block.drop_last());
        assert(write_block(state, block)@ =~= block + state@.subrange(block.len() as int, W as int));
    } else {
        assert(state@ =~= block + state@.subrange(0, W as int));
    }
}

/// `n / k` rounded up: the number of blocks of at most `k` elements that
/// `n` elements fill.
pub open spec fn chunk_count(n: nat, k: nat) -> nat {
    if n % k == 0 {
        n / k
    } else {
        n / k + 1
    }
}

/// Hashing the empty input never permutes: the digest is `out` copies of the
/// initial cell value.
pub proof fn lemma_empty_input_digest<E: Copy, P: CryptographicPermutation<[E; W]>, const W: usize>(
    perm: P,
    rate: nat,
    out: nat,
    init: E,
)
    requires
        out <= W,
    ensures
        permutation_inputs(perm, rate, spec_array_fill_for_copy_type::<E, W>(init), Seq::<E>::empty()).len() == 0,
        sponge_digest(perm, rate, out, init, Seq::<E>::empty()) == Seq::new(out, |i: int| init),
{
    let d = sponge_digest(perm, rate, out, init, Seq::<E>::empty());
    assert(d =~= Seq::new(out, |i: int| init));
}

/// The permutation runs once per block of `rate` input elements, the last
/// block possibly partial: `len / rate` rounded up times.
pub proof fn lemma_permutation_count<E, P: CryptographicPermutation<[E; W]>, const W: usize>(
    perm: P,
    rate: nat,
    state: [E; W],
    input: Seq<E>,
)
    requires
        rate >= 1,
    ensures
        permutation_inputs(perm, rate, state, input).len() == chunk_count(input.len(), rate),
    decreases input.len(),
{
    let n = input.len();
    if n == 0 {
        lemma_fundamental_div_mod_converse(0, rate as int, 0, 0);
    } else if n < rate {
        let s = write_block(state, input.take(n as int));
        assert(input.skip(n as int).len() == 0);
        assert(permutation_inputs(perm, rate, perm.spec_permute(s), input.skip(n as int)).len() == 0);
        lemma_fundamental_div_mod_converse(n as int, rate as int, 0, n as int);
    } else {
        let rest = input.skip(rate as int);
        let s = write_block(state, input.take(rate as int));
        lemma_permutation_count(perm, rate, perm.spec_permute(s), rest);
        assert(permutation_inputs(perm, rate, state, input).len()
            == 1 + permutation_inputs(perm, rate, perm.spec_permute(s), rest).len());
        let m = (n - rate) as int;
        lemma_fundamental_div_mod(m, rate as int);
        let q = m / (rate as int);
        assert((q + 1) * (rate as int) == (rate as int) * q + (rate as int)) by (nonlinear_arith);
        assert(rest.len() == m);
        lemma_fundamental_div_mod_converse(n as int, rate as int, m / (rate as int) + 1, m % (rate as int));
    }
}

/// When the input length is a multiple of `rate`, the permutation runs exactly
/// `len / rate` times.
pub proof fn lemma_aligned_permutation_count<E, P: CryptographicPermutation<[E; W]>, const W: usize>(
    perm: P,
    rate: nat,
    state: [E; W],
    input: Seq<E>,
)
    requires
        rate >= 1,
        input.len() % rate == 0,
    ensures
        permutation_inputs(perm, rate, state, input).len() == input.len() / rate,
{
    lemma_permutation_count(perm, rate, state, input);
}

/// The absorbed state is the output of the last permutation call, or the
/// starting state when the permutation never ran.
pub proof fn lemma_absorb_is_last_output<E, P: CryptographicPermutation<[E; W]>, const W: usize>(
    perm: P,
    rate: nat,
    state: [E; W],
    input: Seq<E>,
)
    ensures
        ({
            let t = permutation_inputs(perm, rate, state, input);
            absorb(perm, rate, state, input) == if t.len() == 0 {
                state
            } else {
                perm.spec_permute(t.last())
            }
        }),
    decreases input.len(),
{
    if input.len() > 0 && rate > 0 {
        let k = block_len(rate, input.len());
        let s = write_block(state, input.take(k as int));
        let rest = input.skip(k as int);
        lemma_absorb_is_last_output(perm, rate, perm.spec_permute(s), rest);
        let t = permutation_inputs(perm, rate, state, input);
        let tr = permutation_inputs(perm, rate, perm.spec_permute(s), rest);
        assert(t == seq![s] + tr);
        if tr.len() > 0 {
            assert(t.last() == tr.last());
        }
    }
}

/// Overwrite mode carries cells forward: with `rate + 1` input elements the
/// permutation runs twice, and the second call sees the last element in cell
/// 0 and, in every other cell, what the first call returned there.
pub proof fn lemma_overwrite_carry<E, P: CryptographicPermutation<[E; W]>, const W: usize>(
    perm: P,
    rate: nat,
    state: [E; W],
    input: Seq<E>,
)
    requires
        1 <= rate <= W,
        input.len() == rate + 1,
    ensures
        ({
            let t = permutation_inputs(perm, rate, state, input);
            &&& t.len() == 2
            &&& t[0]@ == input.take(rate as int) + state@.subrange(rate as int, W as int)
            &&& t[1]@[0] == input[rate as int]
            &&& forall|i: int| 1 <= i < W ==> #[trigger] t[1]@[i] == perm.spec_permute(t[0])@[i]
        }),
{
    let s0 = write_block(state, input.take(rate as int));
    let rest = input.skip(rate as int);
    let s1 = write_block(perm.spec_permute(s0), rest.take(1));
    let rest2 = rest.skip(1);
    assert(rest2.len() == 0);
    assert(block_len(rate, rest.len()) == 1);
    lemma_write_block(state, input.take(rate as int));
    lemma_write_block(perm.spec_permute(s0), rest.take(1));
    let t = permutation_inputs(perm, rate, state, input);
    let t1 = permutation_inputs(perm, rate, perm.spec_permute(s0), rest);
    assert(permutation_inputs(perm, rate, perm.spec_permute(s1), rest2) =~= Seq::<[E; W]>::empty());
    assert(t1 =~= seq![s1]);
    assert(t =~= seq![s0, s1]);
}

/// Hashing is deterministic: two digests of the same input under the same
/// permutation and initial value are equal.
pub proof fn lemma_digest_deterministic<E: Copy, P: CryptographicPermutation<[E; W]>, const W: usize, const OUT: usize>(
    perm: P,
    rate: nat,
    init: E,
    input: Seq<E>,
    r1: [E; OUT],
    r2: [E; OUT],
)
    requires
        r1@ == sponge_digest(perm, rate, OUT as nat, init, input),
        r2@ == sponge_digest(perm, rate, OUT as nat, init, input),
    ensures
        r1 == r2,
{
    assert(r1 =~= r2);
}

/// Absorbs `input` into a state whose every cell holds `init`, then returns the
/// first `OUT` cells.
pub(crate) fn absorb_and_squeeze<E: Copy, P: CryptographicPermutation<[E; WIDTH]>, const WIDTH: usize, const RATE: usize, const OUT: usize>(
    perm: &P,
    init: E,
    input: &[E],
) -> (r: [E; OUT])
    requires
        RATE <= WIDTH,
        OUT <= WIDTH,
    ensures
        r@ == sponge_digest(*perm, RATE as nat, OUT as nat, init, input@),
{
    let ghost start = spec_array_fill_for_copy_type::<E, WIDTH>(init);
    let mut state: [E; WIDTH] = [init; WIDTH];
    assert(state =~= start);
    let n: usize = input.len();
    let mut pos: usize = 0;
    assert(input@.skip(0) =~= input@);
    loop
        invariant
            RATE <= WIDTH,
            n == input@.len(),
            pos <= n,
            absorb(*perm, RATE as nat, start, input@)
                == absorb(*perm, RATE as nat, state, input@.skip(pos as int)),
        ensures
            absorb(*perm, RATE as nat, start, input@) == state,
        decreases input@.len() - pos,
    {
        let ghost before = state;
        let ghost rest = input@.skip(pos as int);
        let mut absorbed: usize = 0;
        assert(rest.take(0) =~= Seq::<E>::empty());
        while absorbed < RATE && pos + absorbed < n
            invariant
                RATE <= WIDTH,
                n == input@.len(),
                pos <= n,
                absorbed <= RATE,
                pos + absorbed <= n,
                rest == input@.skip(pos as int),
                state == write_block(before, rest.take(absorbed as int)),
            decreases RATE - absorbed,
        {
            state[absorbed] = input[pos + absorbed];
            proof {
                let b = rest.take(absorbed as int + 1);
                assert(b.drop_last() =~= rest.take(absorbed as int));
                assert(state =~= write_block(before, b));
            }
            absorbed += 1;
        }
        if absorbed == 0 {
            proof {
                assert(rest.len() == 0 || RATE == 0);
            }
            break;
        }
        proof {
            assert(absorbed == block_len(RATE as nat, rest.len()));
            assert(input@.skip(pos + absorbed) =~= rest.skip(absorbed as int));
        }
        state = perm.permute(state);
        pos += absorbed;
    }
    let mut out: [E; OUT] = [init; OUT];
    let mut i: usize = 0;
    while i < OUT
        invariant
            OUT <= WIDTH,
            i <= OUT,
            forall|j: int| 0 <= j < i ==> out@[j] == state@[j],
        decreases OUT - i,
    {
        out[i] = state[i];
        i += 1;
    }
    assert(out@ =~= state@.take(OUT as int));
    out
}

/// A padding-free, overwrite-mode sponge function.
///
/// `WIDTH` is the sponge's rate plus the sponge's capacity.
#[derive(Clone, Debug)]
pub struct PaddingFreeSponge<P, const WIDTH: usize, const RATE: usize, const OUT: usize> {
    permutation: P,
}

impl<P, const WIDTH: usize, const RATE: usize, const OUT: usize> PaddingFreeSponge<P, WIDTH, RATE, OUT> {
    /// The permutation this sponge applies.
    pub closed spec fn spec_permutation(&self) -> P {
        self.permutation
    }

    pub fn new(permutation: P) -> (r: Self)
        ensures
            r.spec_permutation() == permutation,
    {
        Self { permutation }
    }
}

impl<P, const WIDTH: usize, const RATE: usize, const OUT: usize> PaddingFreeSponge<P, WIDTH, RATE, OUT> {
    /// Hashes `input` starting from a state whose every cell holds `init`.
    pub fn hash_with_init<E: Copy>(&self, init: E, input: &[E]) -> (r: [E; OUT])
        where
            P: CryptographicPermutation<[E; WIDTH]>,
        requires
            RATE <= WIDTH,
            OUT <= WIDTH,
        ensures
            r@ == sponge_digest(self.spec_permutation(), RATE as nat, OUT as nat, init, input@),
    {
        absorb_and_squeeze::<E, P, WIDTH, RATE, OUT>(&self.permutation, init, input)
    }

    /// Hashes `input` starting from a state whose every cell holds `E`'s default value.
    pub fn hash_iter<E: Copy + Default>(&self, input: &[E]) -> (r: [E; OUT])
        where
            P: CryptographicPermutation<[E; WIDTH]>,
        requires
            RATE <= WIDTH,
            OUT <= WIDTH,
        ensures
            exists|d: E| r@ == #[trigger] sponge_digest(self.spec_permutation(), RATE as nat, OUT as nat, d, input@),
    {
        self.hash_with_init(E::default(), input)
    }
}

} // verus!
