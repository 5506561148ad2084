//! A genetic algorithm over individuals that carry a genome and a fitness.

pub mod chromosome;
pub mod crossover;
pub mod mutation;
pub mod selection;

use crate::genetic_algorithm::chromosome::Chromosome;
use crate::genetic_algorithm::crossover::{CrossoverMethod, UniformCrossover};
use crate::genetic_algorithm::mutation::{
    lemma_change_is_bounded, lemma_no_chance_no_change, GaussianMutation, MutationMethod,
};
use crate::genetic_algorithm::selection::{RouletteWheelSelection, SelectionMethod};
use rand_chacha::ChaCha8Rng;
use vstd::prelude::*;

verus! {

/// What the genetic algorithm breeds: something that carries a genome and a
/// fitness, and that can be made anew of a genome.
pub trait Individual: Sized {
    /// The genes of the individual.
    spec fn spec_chromosome(&self) -> Seq<i64>;

    /// The fitness of the individual.
    spec fn spec_fitness(&self) -> u32;

    /// A new individual with the given genome.
    fn from_chromosome(chromosome: Chromosome) -> (individual: Self)
        ensures
            individual.spec_chromosome() == chromosome@,
    ;

    /// The genome of the individual.
    fn chromosome(&self) -> (chromosome: &Chromosome)
        ensures
            chromosome@ == self.spec_chromosome(),
    ;

    /// The fitness of the individual.
    fn fitness(&self) -> (fitness: u32)
        ensures
            fitness == self.spec_fitness(),
    ;
}

/// The fitness of each member of a population, in order.
pub open spec fn fitness_of<I: Individual>(population: Seq<I>) -> Seq<u32> {
    population.map_values(|individual: I| individual.spec_fitness())
}

/// A genetic algorithm: a way to select parents, a way to cross them and a
/// way to mutate their child.
#[derive(Debug)]
pub struct GeneticAlgorithm<S, C, M> {
    selection_method: S,
    crossover_method: C,
    mutation_method: M,
}

impl<S: SelectionMethod, C: CrossoverMethod, M: MutationMethod> GeneticAlgorithm<S, C, M> {
    /// The way parents are selected.
    pub closed spec fn selection(&self) -> S {
        self.selection_method
    }

    /// The way two parents are crossed.
    pub closed spec fn crossover(&self) -> C {
        self.crossover_method
    }

    /// The way a child is mutated.
    pub closed spec fn mutation(&self) -> M {
        self.mutation_method
    }

    /// Any two members that may be selected can be crossed.
    pub open spec fn can_breed<I: Individual>(&self, population: Seq<I>) -> bool {
        &&& population.len() > 0
        &&& self.selection().accepts(fitness_of(population))
        &&& forall|a: int, b: int|
            #![trigger population[a], population[b]]
            self.selection().may_select(fitness_of(population), a) && self.selection().may_select(
                fitness_of(population),
                b,
            ) && 0 <= a < population.len() && 0 <= b < population.len()
                ==> self.crossover().accepts(
                population[a].spec_chromosome(),
                population[b].spec_chromosome(),
            )
    }

    /// `child` may be bred of the population: it is what the mutation may
    /// turn a genome into that the crossover may make of two members that the
    /// selection may pick.
    pub open spec fn may_breed<I: Individual>(&self, population: Seq<I>, child: Seq<i64>) -> bool {
        exists|a: int, b: int, crossed: Seq<i64>|
            {
                &&& 0 <= a < population.len()
                &&& 0 <= b < population.len()
                &&& self.selection().may_select(fitness_of(population), a)
                &&& self.selection().may_select(fitness_of(population), b)
                &&& #[trigger] self.crossover().may_yield(
                    population[a].spec_chromosome(),
                    population[b].spec_chromosome(),
                    crossed,
                )
                &&& self.mutation().may_turn(crossed, child)
            }
    }

    /// The algorithm with the given methods.
    pub fn new(selection_method: S, crossover_method: C, mutation_method: M) -> (algorithm: Self)
        ensures
            algorithm.selection() == selection_method,
            algorithm.crossover() == crossover_method,
            algorithm.mutation() == mutation_method,
    {
        Self { selection_method, crossover_method, mutation_method }
    }

    /// The next generation: as many individuals as the population has, each
    /// made of the mutated child of two selected parents. A parent may be
    /// selected twice. For each individual in turn the draws are made in
    /// this order: the first parent, the second parent, the crossover, the
    /// mutation.
    pub fn evolve<I: Individual>(&self, rng: &mut ChaCha8Rng, population: &[I]) -> (next: Vec<I>)
        requires
            self.can_breed(population@),
        ensures
            next@.len() == population@.len(),
            forall|n: int|
                0 <= n < next@.len() ==> self.may_breed(
                    population@,
                    (#[trigger] next@[n]).spec_chromosome(),
                ),
    {
        let count: usize = population.len();
        let mut next: Vec<I> = Vec::new();
        let mut n: usize = 0;
        while n < count
            invariant
                n <= count,
                count == population@.len(),
                next@.len() == n,
                self.can_breed(population@),
                forall|m: int|
                    0 <= m < n ==> self.may_breed(
                        population@,
                        (#[trigger] next@[m]).spec_chromosome(),
                    ),
            decreases count - n,
        {
            let parent_a = self.selection_method.select(rng, population);
            let parent_b = self.selection_method.select(rng, population);
            let ghost a = choose|a: int|
                0 <= a < population@.len() && population@[a] == *parent_a
                    && self.selection().may_select(fitness_of(population@), a);
            let ghost b = choose|b: int|
                0 <= b < population@.len() && population@[b] == *parent_b
                    && self.selection().may_select(fitness_of(population@), b);
            proof {
                let _ = (population@[a], population@[b]);
            }
            let mut child = self.crossover_method.crossover(
                rng,
                parent_a.chromosome(),
                parent_b.chromosome(),
            );
            let ghost crossed = child@;
            self.mutation_method.mutate(rng, &mut child);
            let ghost mutated = child@;
            let individual = I::from_chromosome(child);
            proof {
                assert(self.crossover().may_yield(
                    population@[a].spec_chromosome(),
                    population@[b].spec_chromosome(),
                    crossed,
                ));
                assert(self.may_breed(population@, mutated));
            }
            next.push(individual);
            n += 1;
        }
        next
    }
}

/// `child` is the gene of a parent, moved by `coeff` at most, and not at
/// all where `chance` is zero.
pub open spec fn inherited(parent: i64, child: i64, chance: i64, coeff: i64) -> bool {
    &&& -coeff <= child - parent <= coeff
    &&& chance == 0 ==> child == parent
}

/// What roulette-wheel selection, uniform crossover and mutation breed
/// together: every gene of a child is the gene, at its place, of a member of
/// positive fitness, moved by the coefficient of the mutation at most; with
/// a chance of zero it is that gene itself.
pub proof fn lemma_bred_gene<I: Individual>(
    algorithm: GeneticAlgorithm<RouletteWheelSelection, UniformCrossover, GaussianMutation>,
    population: Seq<I>,
    child: Seq<i64>,
    k: int,
)
    requires
        algorithm.may_breed(population, child),
        0 <= algorithm.mutation().spec_coeff(),
        0 <= k < child.len(),
    ensures
        exists|a: int|
            {
                &&& 0 <= a < population.len()
                &&& #[trigger] fitness_of(population)[a] > 0
                &&& population[a].spec_chromosome().len() == child.len()
                &&& inherited(
                    population[a].spec_chromosome()[k],
                    child[k],
                    algorithm.mutation().spec_chance(),
                    algorithm.mutation().spec_coeff(),
                )
            },
{
    let (a, b, crossed) = choose|a: int, b: int, crossed: Seq<i64>|
        {
            &&& 0 <= a < population.len()
            &&& 0 <= b < population.len()
            &&& algorithm.selection().may_select(fitness_of(population), a)
            &&& algorithm.selection().may_select(fitness_of(population), b)
            &&& #[trigger] algorithm.crossover().may_yield(
                population[a].spec_chromosome(),
                population[b].spec_chromosome(),
                crossed,
            )
            &&& algorithm.mutation().may_turn(crossed, child)
        };
    lemma_change_is_bounded(algorithm.mutation(), crossed, child, k);
    if algorithm.mutation().spec_chance() == 0 {
        lemma_no_chance_no_change(algorithm.mutation(), crossed, child);
    }
    if crossed[k] == population[a].spec_chromosome()[k] {
        assert(fitness_of(population)[a] > 0);
    } else {
        assert(crossed[k] == population[b].spec_chromosome()[k]);
        assert(fitness_of(population)[b] > 0);
    }
}

} // verus!
