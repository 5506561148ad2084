//! An evolutionary simulation of simple animals that look for food.
//!
//! Animals see the food around them through an [`Eye`], decide by a small
//! neural [`Network`] how to move, and are bred anew by a
//! [`GeneticAlgorithm`] after every generation, those that have eaten more
//! being more likely to have offspring.
//!
//! All numbers are fixed-point (see [`fixed`]), and all randomness comes from
//! a source that the caller hands in, so that a run follows its seed.

pub mod animal;
pub mod animal_individual;
pub mod eye;
pub mod fixed;
pub mod food;
pub mod genetic_algorithm;
pub mod geometry;
pub mod neural_network;
pub mod random;
pub mod simulation;
pub mod world;

pub use crate::animal::Animal;
pub use crate::animal_individual::AnimalIndividual;
pub use crate::eye::Eye;
pub use crate::food::Food;
pub use crate::genetic_algorithm::chromosome::Chromosome;
pub use crate::genetic_algorithm::crossover::{CrossoverMethod, UniformCrossover};
pub use crate::genetic_algorithm::mutation::{GaussianMutation, MutationMethod};
pub use crate::genetic_algorithm::selection::{RouletteWheelSelection, SelectionMethod};
pub use crate::genetic_algorithm::{GeneticAlgorithm, Individual};
pub use crate::geometry::{Point, Polar, Vector};
pub use crate::neural_network::{LayerTopology, Network, Neuron};
pub use crate::simulation::{Outcome, Simulation};
pub use crate::world::World;
