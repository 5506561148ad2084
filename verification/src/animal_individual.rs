//! An animal as the genetic algorithm sees it: a genome and a fitness.

use crate::animal::{brain_layers, brain_topology, Animal, SPEED_AT_BIRTH};
use crate::genetic_algorithm::chromosome::Chromosome;
use crate::genetic_algorithm::Individual;
use crate::neural_network::{gene_count, network_genes, Network};
use rand_chacha::ChaCha8Rng;
use vstd::prelude::*;

verus! {

/// The fitness of an animal that has eaten so much: what it has eaten, as far
/// as the fitness type can count.
pub open spec fn fitness_of_satiation(satiation: nat) -> u32 {
    if satiation > u32::MAX {
        u32::MAX
    } else {
        satiation as u32
    }
}

/// The genome of the brain of an animal, and how much the animal has eaten.
#[derive(Debug)]
pub struct AnimalIndividual {
    fitness: u32,
    chromosome: Chromosome,
}

impl Individual for AnimalIndividual {
    closed spec fn spec_chromosome(&self) -> Seq<i64> {
        self.chromosome@
    }

    closed spec fn spec_fitness(&self) -> u32 {
        self.fitness
    }

    /// An individual with the given genome, which has not eaten.
    fn from_chromosome(chromosome: Chromosome) -> (individual: Self)
        ensures
            individual.spec_fitness() == 0,
    {
        Self { fitness: 0, chromosome }
    }

    fn chromosome(&self) -> (chromosome: &Chromosome) {
        &self.chromosome
    }

    fn fitness(&self) -> (fitness: u32) {
        self.fitness
    }
}

impl AnimalIndividual {
    /// The individual that stands for the animal: its fitness is what the
    /// animal has eaten, its genome the genes of the brain of the animal.
    pub fn from_animal(animal: &Animal) -> (individual: Self)
        ensures
            individual.spec_fitness() == fitness_of_satiation(animal@.satiation),
            individual.spec_chromosome() == network_genes(animal@.brain),
    {
        let eaten: usize = animal.satiation();
        let fitness: u32 = if eaten > u32::MAX as usize {
            u32::MAX
        } else {
            eaten as u32
        };
        Self { fitness, chromosome: Chromosome::new(animal.brain().weights()) }
    }

    /// A newborn animal whose brain has the genes of the individual. Place
    /// and direction are drawn anew, the place first; nothing but the brain
    /// is inherited.
    pub fn into_animal(self, rng: &mut ChaCha8Rng) -> (animal: Animal)
        requires
            self.spec_chromosome().len() == gene_count(brain_topology()),
        ensures
            animal@.wf(),
            network_genes(animal@.brain) == self.spec_chromosome(),
            animal@.speed == SPEED_AT_BIRTH,
            animal@.satiation == 0,
    {
        let layers = brain_layers();
        let brain = Network::from_weights(layers.as_slice(), self.chromosome.into_genes());
        Animal::born(rng, brain)
    }
}

} // verus!
