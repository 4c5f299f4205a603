//! The source of randomness that the caller supplies.

use vstd::prelude::*;
use crate::gene::{check_symmetric, check_unit, is_symmetric, is_unit, ZERO};

verus! {

/// A seedable uniform random generator, threaded through every operator by
/// exclusive reference.
///
/// The library promises nothing of what a source hands back and relies on
/// nothing: each draw passes through one of the functions below, which says
/// what the library makes of every value.
pub trait RandomSource {
    /// A fair coin.
    fn coin(&mut self) -> bool;

    /// The bit pattern of a value drawn uniformly from `[0, 1)`.
    fn unit(&mut self) -> u32;

    /// The bit pattern of a value drawn uniformly from `[-1, 1]`.
    fn symmetric(&mut self) -> u32;

    /// An integer drawn uniformly from those below `bound`.
    fn below(&mut self, bound: usize) -> usize;

    /// An index into `weights`, drawn with a probability proportional to the
    /// weight at it, or `None` where the weights allow no such draw: there
    /// are none, one is negative or no number, or their sum is not a
    /// positive finite value.
    fn weighted(&mut self, weights: &Vec<u32>) -> Option<usize>;
}

/// `at` is the place of one of `count` draws that were made in a row.
pub open spec fn is_place(at: int, count: nat) -> bool {
    0 <= at < count
}

/// What the library takes a draw from `[0, 1)` to be.
pub open spec fn unit_of(raw: u32) -> u32 {
    if is_unit(raw) {
        raw
    } else {
        ZERO
    }
}

/// What the library takes a draw from `[-1, 1]` to be.
pub open spec fn symmetric_of(raw: u32) -> u32 {
    if is_symmetric(raw) {
        raw
    } else {
        ZERO
    }
}

/// What the library takes a draw from the integers below `bound` to be.
pub open spec fn below_of(raw: usize, bound: usize) -> usize {
    if raw < bound {
        raw
    } else {
        0
    }
}

/// What the library takes a weighted draw among `count` items to be.
pub open spec fn weighted_of(raw: Option<usize>, count: usize) -> Option<usize> {
    match raw {
        Some(index) => if index < count {
            Some(index)
        } else {
            None
        },
        None => None,
    }
}

/// Keeps a draw that lies in `[0, 1)` and takes any other for zero.
pub fn settle_unit(raw: u32) -> (bits: u32)
    ensures
        bits == unit_of(raw),
        is_unit(bits),
{
    if check_unit(raw) {
        raw
    } else {
        ZERO
    }
}

/// Keeps a draw that lies in `[-1, 1]` and takes any other for zero.
pub fn settle_symmetric(raw: u32) -> (bits: u32)
    ensures
        bits == symmetric_of(raw),
        is_symmetric(bits),
{
    if check_symmetric(raw) {
        raw
    } else {
        assert(0u32 & 0x7fff_ffffu32 == 0u32) by (bit_vector);
        ZERO
    }
}

/// Keeps a draw that lies below `bound` and takes any other for zero.
pub fn settle_below(raw: usize, bound: usize) -> (index: usize)
    requires
        bound > 0,
    ensures
        index == below_of(raw, bound),
        index < bound,
{
    if raw < bound {
        raw
    } else {
        0
    }
}

/// Keeps a weighted draw that is an index among `count` items and takes any
/// other for no draw.
pub fn settle_weighted(raw: Option<usize>, count: usize) -> (picked: Option<usize>)
    ensures
        picked == weighted_of(raw, count),
        picked matches Some(index) ==> index < count,
{
    match raw {
        Some(index) => if index < count {
            Some(index)
        } else {
            None
        },
        None => None,
    }
}

/// Draws a value from `[0, 1)`: what one call of the source's `unit` gives,
/// an answer out of range taken for zero. The source is left as that call
/// leaves it.
pub fn draw_unit<R: RandomSource>(rng: &mut R) -> (bits: u32)
    ensures
        is_unit(bits),
        exists|source: &mut R, raw: u32|
            {
                &&& *source == *old(rng)
                &&& *final(source) == *final(rng)
                &&& #[trigger] call_ensures(R::unit, (source,), raw)
                &&& bits == unit_of(raw)
            },
{
    let raw = rng.unit();
    settle_unit(raw)
}

/// Draws a value from `[-1, 1]`: what one call of the source's `symmetric`
/// gives, an answer out of range taken for zero. The source is left as that
/// call leaves it.
pub fn draw_symmetric<R: RandomSource>(rng: &mut R) -> (bits: u32)
    ensures
        is_symmetric(bits),
        exists|source: &mut R, raw: u32|
            {
                &&& *source == *old(rng)
                &&& *final(source) == *final(rng)
                &&& #[trigger] call_ensures(R::symmetric, (source,), raw)
                &&& bits == symmetric_of(raw)
            },
{
    let raw = rng.symmetric();
    settle_symmetric(raw)
}

/// Draws an integer below `bound`: what one call of the source's `below`
/// gives for `bound`, an answer out of range taken for zero. The source is
/// left as that call leaves it.
pub fn draw_below<R: RandomSource>(rng: &mut R, bound: usize) -> (index: usize)
    requires
        bound > 0,
    ensures
        index < bound,
        exists|source: &mut R, raw: usize|
            {
                &&& *source == *old(rng)
                &&& *final(source) == *final(rng)
                &&& #[trigger] call_ensures(R::below, (source, bound), raw)
                &&& index == below_of(raw, bound)
            },
{
    let raw = rng.below(bound);
    settle_below(raw, bound)
}

/// Draws an index into `weights` by weight: what one call of the source's
/// `weighted` gives for `weights`, an answer that is no index into them taken
/// for no draw. It is `None` where the source reports that the weights allow
/// no draw, and always where there are no weights. The source is left as
/// that call leaves it.
pub fn draw_weighted<R: RandomSource>(rng: &mut R, weights: &Vec<u32>) -> (picked: Option<usize>)
    ensures
        picked matches Some(index) ==> index < weights.len(),
        weights.len() == 0 ==> picked is None,
        exists|source: &mut R, raw: Option<usize>|
            {
                &&& *source == *old(rng)
                &&& *final(source) == *final(rng)
                &&& #[trigger] call_ensures(R::weighted, (source, weights), raw)
                &&& picked == weighted_of(raw, weights.len())
            },
{
    let raw = rng.weighted(weights);
    settle_weighted(raw, weights.len())
}

/// Draws from `[-1, 1]` that follow one another make one run of draws: where
/// the source passes from `states[0]` through `states` while `genes` are
/// drawn, and from there through `more_states` while `more_genes` are drawn,
/// it passes through all those states while all those genes are drawn.
pub proof fn lemma_symmetric_draws_follow<R: RandomSource>(
    genes: Seq<u32>,
    states: Seq<R>,
    raws: Seq<u32>,
    more_genes: Seq<u32>,
    more_states: Seq<R>,
    more_raws: Seq<u32>,
)
    requires
        raws.len() == genes.len(),
        states.len() == raws.len() + 1,
        more_raws.len() == more_genes.len(),
        more_states.len() == more_raws.len() + 1,
        more_states[0] == states[raws.len() as int],
        forall|at: int|
            #[trigger] is_place(at, raws.len()) ==> {
                &&& genes[at] == symmetric_of(raws[at])
                &&& exists|source: &mut R|
                    {
                        &&& *source == states[at]
                        &&& *final(source) == states[at + 1]
                        &&& #[trigger] call_ensures(R::symmetric, (source,), raws[at])
                    }
            },
        forall|at: int|
            #[trigger] is_place(at, more_raws.len()) ==> {
                &&& more_genes[at] == symmetric_of(more_raws[at])
                &&& exists|source: &mut R|
                    {
                        &&& *source == more_states[at]
                        &&& *final(source) == more_states[at + 1]
                        &&& #[trigger] call_ensures(R::symmetric, (source,), more_raws[at])
                    }
            },
    ensures
        forall|at: int|
            #[trigger] is_place(at, (raws + more_raws).len()) ==> {
                &&& (genes + more_genes)[at] == symmetric_of((raws + more_raws)[at])
                &&& exists|source: &mut R|
                    {
                        &&& *source == (states + more_states.skip(1))[at]
                        &&& *final(source) == (states + more_states.skip(1))[at + 1]
                        &&& #[trigger] call_ensures(R::symmetric, (source,), (raws + more_raws)[at])
                    }
            },
{
    let all_genes = genes + more_genes;
    let all_states = states + more_states.skip(1);
    let all_raws = raws + more_raws;
    assert forall|at: int| #[trigger] is_place(at, all_raws.len()) implies {
        &&& all_genes[at] == symmetric_of(all_raws[at])
        &&& exists|source: &mut R|
            {
                &&& *source == all_states[at]
                &&& *final(source) == all_states[at + 1]
                &&& #[trigger] call_ensures(R::symmetric, (source,), all_raws[at])
            }
    } by {
        if at < raws.len() {
            assert(is_place(at, raws.len()));
            assert(all_raws[at] == raws[at]);
            assert(all_genes[at] == genes[at]);
            assert(all_states[at] == states[at]);
            assert(all_states[at + 1] == states[at + 1]);
        } else {
            let within = at - raws.len();
            assert(is_place(within, more_raws.len()));
            assert(all_raws[at] == more_raws[within]);
            assert(all_genes[at] == more_genes[within]);
            assert(all_states[at + 1] == more_states[within + 1]);
            assert(all_states[at] == more_states[within]);
        }
    };
}

} // verus!
