use vstd::prelude::*;

use rand::seq::SliceRandom;
use rand::RngCore;
use rand::SeedableRng;
use rand_xorshift::XorShiftRng;

use crate::types::LaneID;

verus! {

#[verifier::external_type_specification]
#[verifier::external_body]
pub struct ExXorShiftRng(XorShiftRng);

/// Where a deterministic random stream stands: the seed that started it, and
/// how many raw 32-bit draws it has handed out so far.
pub ghost struct StreamPos {
    pub seed: u64,
    pub taken: nat,
}

/// The 64-bit value that the xorshift stream started from `seed` yields once
/// `taken` raw 32-bit draws have already been consumed.
pub uninterp spec fn stream(seed: u64, taken: nat) -> u64;

/// The permutation that a Fisher-Yates shuffle of `len` items applies, given
/// the generator's position; position `i` of the result receives the item
/// that stood at `shuffle_perm(..)[i]`.
pub uninterp spec fn shuffle_perm(len: nat, seed: u64, taken: nat) -> Seq<int>;

/// The generator position after shuffling `len` items from the given position.
pub uninterp spec fn shuffle_taken(len: nat, seed: u64, taken: nat) -> nat;

/// The index that choosing one element among `len` picks, given the
/// generator's position.
pub uninterp spec fn chosen_index(len: nat, seed: u64, taken: nat) -> int;

/// `s` rearranged by the permutation `p`.
pub open spec fn spec_apply_perm<T>(s: Seq<T>, p: Seq<int>) -> Seq<T> {
    Seq::new(s.len(), |i: int| s[p[i]])
}

/// `p` rearranges exactly the positions `0 .. n`.
pub open spec fn is_permutation_of(p: Seq<int>, n: nat) -> bool {
    &&& p.len() == n
    &&& forall|i: int| 0 <= i < p.len() ==> 0 <= #[trigger] p[i] < n
    &&& forall|i: int, j: int| 0 <= i < j < p.len() ==> p[i] != p[j]
}

/// A deterministic stream of randomness. Every value it hands out is a pure
/// function of the seed it was built from and of how much was drawn before,
/// never of wall-clock time or thread scheduling.
pub struct SimRng {
    inner: XorShiftRng,
    pos: Ghost<StreamPos>,
}

impl View for SimRng {
    type V = StreamPos;

    closed spec fn view(&self) -> StreamPos {
        self.pos@
    }
}

/// Relies on rand_core's `SeedableRng::seed_from_u64` for `XorShiftRng`: the
/// generator it returns is a function of the seed alone, which is what lets
/// `stream` describe every later draw.
#[verifier::external_body]
fn xorshift_from_seed(seed: u64) -> XorShiftRng {
    XorShiftRng::seed_from_u64(seed)
}

impl SimRng {
    /// A fresh stream, standing at the start of the seed's draw sequence.
    pub fn seeded(seed: u64) -> (r: SimRng)
        ensures
            r@ == (StreamPos { seed, taken: 0 }),
    {
        SimRng { inner: xorshift_from_seed(seed), pos: Ghost(StreamPos { seed, taken: 0 }) }
    }

    /// Relies on `XorShiftRng`'s `RngCore::next_u64`: two raw 32-bit draws of
    /// a stream that is a function of the seed alone.
    #[verifier::external_body]
    pub fn next_u64(&mut self) -> (r: u64)
        ensures
            r == stream(old(self)@.seed, old(self)@.taken),
            final(self)@ == (StreamPos {
                seed: old(self)@.seed,
                taken: old(self)@.taken + 2,
            }),
    {
        self.inner.next_u64()
    }
}

/// Relies on rand's `SliceRandom::shuffle`: a Fisher-Yates pass whose swaps
/// depend only on the slice's length and the generator's state, never on the
/// items themselves.
#[verifier::external_body]
pub fn shuffle<T>(rng: &mut SimRng, v: &mut Vec<T>)
    ensures
        final(v)@.len() == old(v)@.len(),
        is_permutation_of(
            shuffle_perm(old(v)@.len(), old(rng)@.seed, old(rng)@.taken),
            old(v)@.len(),
        ),
        forall|i: int|
            0 <= i < old(v)@.len() ==> final(v)@[i] == old(v)@[shuffle_perm(
                old(v)@.len(),
                old(rng)@.seed,
                old(rng)@.taken,
            )[i]],
        final(rng)@ == (StreamPos {
            seed: old(rng)@.seed,
            taken: shuffle_taken(old(v)@.len(), old(rng)@.seed, old(rng)@.taken),
        }),
{
    v.as_mut_slice().shuffle(&mut rng.inner);
}

/// Relies on rand's `SliceRandom::choose`: on a non-empty slice it returns
/// the element at one drawn index, a function of the slice's length and the
/// generator's state alone; on an empty slice it returns nothing. What the
/// generator looks like afterwards is left open.
#[verifier::external_body]
pub fn choose_lane(rng: &mut SimRng, v: &Vec<LaneID>) -> (r: Option<LaneID>)
    ensures
        v@.len() == 0 ==> r is None,
        v@.len() > 0 ==> {
            &&& 0 <= chosen_index(v@.len(), old(rng)@.seed, old(rng)@.taken) < v@.len()
            &&& r == Some(v@[chosen_index(v@.len(), old(rng)@.seed, old(rng)@.taken)])
        },
{
    v.as_slice().choose(&mut rng.inner).copied()
}

/// Derive an independent stream from the base stream. The base advances by
/// exactly one 64-bit draw, no matter how much the fork later consumes, so
/// unrelated choices stay reproducible run over run.
pub fn fork_rng(base: &mut SimRng) -> (r: SimRng)
    ensures
        final(base)@ == (StreamPos { seed: old(base)@.seed, taken: old(base)@.taken + 2 }),
        r@ == (StreamPos { seed: stream(old(base)@.seed, old(base)@.taken), taken: 0 }),
{
    let seed = base.next_u64();
    SimRng::seeded(seed)
}

/// The value `rand_range` returns when drawing from the given stream position.
pub open spec fn spec_rand_range(low: u64, high: u64, seed: u64, taken: nat) -> u64
    recommends
        low < high,
{
    (low + stream(seed, taken) as int % (high - low)) as u64
}

/// A value in `[low, high)`, pinned to the stream position so that equal
/// streams yield equal values.
pub fn rand_range(rng: &mut SimRng, low: u64, high: u64) -> (r: u64)
    requires
        low < high,
    ensures
        r == spec_rand_range(low, high, old(rng)@.seed, old(rng)@.taken),
        low <= r < high,
        final(rng)@ == (StreamPos { seed: old(rng)@.seed, taken: old(rng)@.taken + 2 }),
{
    let x = rng.next_u64();
    low + x % (high - low)
}

} // verus!
