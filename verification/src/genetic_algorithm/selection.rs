//! Selection: how a parent is picked out of a population.

use crate::genetic_algorithm::{fitness_of, Individual};
use rand::seq::SliceRandom;
use rand_chacha::ChaCha8Rng;
use vstd::prelude::*;

verus! {

/// A way to pick one member of a population by the fitness of its members.
pub trait SelectionMethod {
    /// The populations, given by the fitness of their members, that the
    /// method can pick from.
    spec fn accepts(&self, fitness: Seq<u32>) -> bool;

    /// The places of the members that the method may pick.
    spec fn may_select(&self, fitness: Seq<u32>, place: int) -> bool;

    /// Picks a member of the population.
    fn select<'a, I: Individual>(
        &self,
        rng: &mut ChaCha8Rng,
        population: &'a [I],
    ) -> (chosen: &'a I)
        requires
            self.accepts(fitness_of(population@)),
        ensures
            exists|place: int|
                0 <= place < population@.len() && population@[place] == *chosen
                    && self.may_select(fitness_of(population@), place),
    ;
}

/// Roulette-wheel selection: a member is picked with a probability
/// proportional to its share of the total fitness.
#[derive(Clone, Copy, Debug, Default)]
pub struct RouletteWheelSelection;

/// The sum of all fitness values.
pub open spec fn total_fitness(fitness: Seq<u32>) -> int
    decreases fitness.len(),
{
    if fitness.len() == 0 {
        0
    } else {
        total_fitness(fitness.drop_last()) + fitness.last()
    }
}

/// The wheel can be spun: there is a member, and the total fitness is
/// positive and fits the fitness type.
pub open spec fn spinnable(fitness: Seq<u32>) -> bool {
    &&& fitness.len() > 0
    &&& 0 < total_fitness(fitness) <= u32::MAX
}

/// `member` is a member of the population whose fitness is positive.
pub open spec fn positive_member<I: Individual>(population: Seq<I>, member: I) -> bool {
    exists|place: int|
        0 <= place < population.len() && population[place] == member && fitness_of(
            population,
        )[place] > 0
}

/// A total of values none of which is above `bound` is not above as many
/// times the bound.
pub proof fn lemma_total_bound(fitness: Seq<u32>, bound: nat)
    requires
        forall|k: int| 0 <= k < fitness.len() ==> #[trigger] fitness[k] <= bound,
    ensures
        0 <= total_fitness(fitness) <= fitness.len() * bound,
    decreases fitness.len(),
{
    if fitness.len() > 0 {
        let front = fitness.drop_last();
        assert forall|k: int| 0 <= k < front.len() implies #[trigger] front[k] <= bound by {
            assert(front[k] == fitness[k]);
        }
        lemma_total_bound(front, bound);
        assert(fitness.last() == fitness[fitness.len() - 1]);
        assert((fitness.len() - 1) * bound + bound == fitness.len() * bound) by (nonlinear_arith);
    } else {
        assert(0 * bound == 0) by (nonlinear_arith);
    }
}

/// A total is positive exactly when one of its values is.
pub proof fn lemma_total_positive(fitness: Seq<u32>)
    ensures
        total_fitness(fitness) > 0 <==> exists|k: int|
            0 <= k < fitness.len() && #[trigger] fitness[k] > 0,
    decreases fitness.len(),
{
    lemma_total_not_negative(fitness);
    if fitness.len() > 0 {
        let front = fitness.drop_last();
        lemma_total_positive(front);
        lemma_total_not_negative(front);
        let last = fitness.len() - 1;
        assert(fitness.last() == fitness[last]);
        if total_fitness(fitness) > 0 {
            if fitness[last] > 0 {
            } else {
                let k = choose|k: int| 0 <= k < front.len() && #[trigger] front[k] > 0;
                assert(fitness[k] == front[k]);
            }
        }
        if exists|k: int| 0 <= k < fitness.len() && #[trigger] fitness[k] > 0 {
            let k = choose|k: int| 0 <= k < fitness.len() && #[trigger] fitness[k] > 0;
            if k < last {
                assert(front[k] == fitness[k]);
            }
        }
    }
}

/// The total grows with every further value.
proof fn lemma_total_grows(fitness: Seq<u32>, n: int)
    requires
        0 <= n <= fitness.len(),
    ensures
        0 <= total_fitness(fitness.take(n)) <= total_fitness(fitness),
    decreases fitness.len() - n,
{
    lemma_total_not_negative(fitness.take(n));
    if n < fitness.len() {
        assert(fitness.take(n + 1).drop_last() =~= fitness.take(n));
        lemma_total_grows(fitness, n + 1);
    } else {
        assert(fitness.take(n) =~= fitness);
    }
}

proof fn lemma_total_not_negative(fitness: Seq<u32>)
    ensures
        0 <= total_fitness(fitness),
    decreases fitness.len(),
{
    if fitness.len() > 0 {
        lemma_total_not_negative(fitness.drop_last());
    }
}

/// Calls `rand::seq::SliceRandom::choose_weighted` with the fitness of each
/// member as its weight, and turns the outside error into `None`. Claimed, as
/// the source of `rand` shows for unsigned integer weights: the call
/// succeeds exactly when the slice is not empty and the total weight is not
/// zero, and what it returns is then a member whose weight is positive.
/// Weights whose sum leaves the weight type, on which the sum in `rand`
/// overflows, are excluded.
#[verifier::external_body]
fn choose_weighted<'a, I: Individual>(
    rng: &mut ChaCha8Rng,
    population: &'a [I],
) -> (chosen: Option<&'a I>)
    requires
        total_fitness(fitness_of(population@)) <= u32::MAX,
    ensures
        chosen.is_some() == (population@.len() > 0 && total_fitness(fitness_of(population@)) > 0),
        chosen.is_some() ==> positive_member(population@, *chosen.unwrap()),
{
    population.choose_weighted(rng, |individual| individual.fitness()).ok()
}

impl RouletteWheelSelection {
    /// The roulette-wheel selection.
    pub fn new() -> (method: RouletteWheelSelection) {
        RouletteWheelSelection
    }

    /// Whether the wheel can be spun over the population.
    pub fn can_select<I: Individual>(population: &[I]) -> (ok: bool)
        ensures
            ok == spinnable(fitness_of(population@)),
    {
        let ghost fitness = fitness_of(population@);
        let count: usize = population.len();
        let mut total: u32 = 0;
        let mut k: usize = 0;
        while k < count
            invariant
                k <= count,
                count == population@.len(),
                fitness == fitness_of(population@),
                total == total_fitness(fitness.take(k as int)),
            decreases count - k,
        {
            let weight: u32 = population[k].fitness();
            proof {
                assert(fitness[k as int] == weight);
                assert(fitness.take(k + 1).drop_last() =~= fitness.take(k as int));
                assert(fitness.take(k + 1).last() == weight);
            }
            match total.checked_add(weight) {
                Some(more) => {
                    total = more;
                },
                None => {
                    proof {
                        lemma_total_grows(fitness, k + 1);
                    }
                    return false;
                },
            }
            k += 1;
        }
        proof {
            assert(fitness.take(k as int) =~= fitness);
        }
        count > 0 && total > 0
    }
}

impl SelectionMethod for RouletteWheelSelection {
    open spec fn accepts(&self, fitness: Seq<u32>) -> bool {
        spinnable(fitness)
    }

    /// Only a member of positive fitness is ever picked.
    open spec fn may_select(&self, fitness: Seq<u32>, place: int) -> bool {
        0 <= place < fitness.len() && fitness[place] > 0
    }

    fn select<'a, I: Individual>(
        &self,
        rng: &mut ChaCha8Rng,
        population: &'a [I],
    ) -> (chosen: &'a I) {
        match choose_weighted(rng, population) {
            Some(chosen) => chosen,
            None => {
                proof {
                    assert(false);
                }
                vstd::pervasive::unreached()
            },
        }
    }
}

} // verus!
