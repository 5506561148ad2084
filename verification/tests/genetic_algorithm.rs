use rand::SeedableRng;
use rand_chacha::ChaCha8Rng;
use simulation::genetic_algorithm::chromosome::Chromosome;
use simulation::genetic_algorithm::crossover::{CrossoverMethod, UniformCrossover};
use simulation::genetic_algorithm::mutation::{GaussianMutation, MutationMethod};
use simulation::genetic_algorithm::selection::{RouletteWheelSelection, SelectionMethod};
use simulation::genetic_algorithm::{GeneticAlgorithm, Individual};
use std::collections::BTreeMap;

#[derive(Clone, Debug)]
enum TestIndividual {
    WithChromosome { chromosome: Chromosome },
    WithFitness { fitness: u32 },
}

impl TestIndividual {
    fn new(fitness: u32) -> Self {
        Self::WithFitness { fitness }
    }
}

impl Individual for TestIndividual {
    fn spec_chromosome(&self) -> vstd::seq::Seq<i64> {
        unreachable!()
    }

    fn spec_fitness(&self) -> u32 {
        unreachable!()
    }

    fn from_chromosome(chromosome: Chromosome) -> Self {
        Self::WithChromosome { chromosome }
    }

    fn chromosome(&self) -> &Chromosome {
        match self {
            Self::WithChromosome { chromosome } => chromosome,
            Self::WithFitness { .. } => panic!("not supported for TestIndividual::WithFitness"),
        }
    }

    fn fitness(&self) -> u32 {
        match self {
            // The sum of the genes, counted in whole units.
            Self::WithChromosome { chromosome } => {
                (chromosome.genes().iter().sum::<i64>() / 1_000_000) as u32
            }
            Self::WithFitness { fitness } => *fitness,
        }
    }
}

fn individual(genes: &[i64]) -> TestIndividual {
    TestIndividual::from_chromosome(Chromosome::new(genes.to_vec()))
}

#[test]
fn test_choose_weighted() {
    let method = RouletteWheelSelection::default();
    let mut rng = ChaCha8Rng::from_seed(Default::default());

    let population = vec![
        TestIndividual::new(1),
        TestIndividual::new(3),
        TestIndividual::new(2),
        TestIndividual::new(4),
    ];

    let actual_histogram = (0..1000)
        .map(|_| method.select(&mut rng, &population))
        .fold(BTreeMap::default(), |mut histogram, individual| {
            *histogram.entry(individual.fitness() as i32).or_default() += 1;

            histogram
        });

    let expected_histogram = BTreeMap::from_iter(vec![(1, 102), (2, 197), (3, 302), (4, 399)]);
    assert_eq!(actual_histogram, expected_histogram);
}

#[test]
fn selection_never_picks_a_member_without_fitness() {
    let method = RouletteWheelSelection::new();
    let mut rng = ChaCha8Rng::seed_from_u64(1);
    let population =
        vec![TestIndividual::new(0), TestIndividual::new(5), TestIndividual::new(0)];
    for _ in 0..200 {
        assert_eq!(method.select(&mut rng, &population).fitness(), 5);
    }
}

#[test]
fn selection_is_proportional_within_tolerance() {
    let method = RouletteWheelSelection::new();
    let mut rng = ChaCha8Rng::seed_from_u64(99);
    let population = vec![
        TestIndividual::new(1),
        TestIndividual::new(3),
        TestIndividual::new(2),
        TestIndividual::new(4),
    ];
    let mut counts = [0u32; 5];
    for _ in 0..1000 {
        counts[method.select(&mut rng, &population).fitness() as usize] += 1;
    }
    for fitness in 1..=4u32 {
        let expected = 100 * fitness;
        assert!(counts[fitness as usize].abs_diff(expected) <= 50);
    }
}

#[test]
fn can_select_tells_when_the_wheel_can_be_spun() {
    let none: Vec<TestIndividual> = vec![];
    assert!(!RouletteWheelSelection::can_select(&none));
    assert!(!RouletteWheelSelection::can_select(&[TestIndividual::new(0), TestIndividual::new(0)]));
    assert!(RouletteWheelSelection::can_select(&[TestIndividual::new(0), TestIndividual::new(1)]));
    assert!(RouletteWheelSelection::can_select(&[TestIndividual::new(u32::MAX)]));
    assert!(RouletteWheelSelection::can_select(&[
        TestIndividual::new(u32::MAX - 1),
        TestIndividual::new(1)
    ]));
    assert!(!RouletteWheelSelection::can_select(&[
        TestIndividual::new(u32::MAX),
        TestIndividual::new(1)
    ]));
}

#[test]
fn chromosome_holds_its_genes_in_order() {
    let mut chromosome = Chromosome::new(vec![3, 1, 2]);
    assert_eq!(chromosome.len(), 3);
    assert_eq!(chromosome.gene(0), 3);
    assert_eq!(chromosome.gene(2), 2);
    chromosome.set_gene(1, 9);
    assert_eq!(chromosome.genes(), &vec![3, 9, 2]);
    assert_eq!(chromosome.into_genes(), vec![3, 9, 2]);
    assert_eq!(Chromosome::new(vec![]).len(), 0);
}

#[test]
fn uniform_crossover_takes_every_gene_from_a_parent() {
    let parent_a = Chromosome::new((1..=100).collect());
    let parent_b = Chromosome::new((1..=100).map(|gene| -gene).collect());
    let mut rng = ChaCha8Rng::from_seed(Default::default());
    let child = UniformCrossover::new().crossover(&mut rng, &parent_a, &parent_b);

    assert_eq!(child.len(), 100);
    let from_a = (0..100).filter(|&k| child.gene(k) == parent_a.gene(k)).count();
    let from_b = (0..100).filter(|&k| child.gene(k) == parent_b.gene(k)).count();
    assert_eq!(from_a + from_b, 100);
    // Both parents give about half of the genes.
    assert!((30..=70).contains(&from_a));
}

#[test]
fn uniform_crossover_of_empty_parents_is_empty() {
    let mut rng = ChaCha8Rng::from_seed(Default::default());
    let empty = Chromosome::new(vec![]);
    assert_eq!(UniformCrossover::new().crossover(&mut rng, &empty, &empty).len(), 0);
}

fn mutated(chance: i64, coeff: i64, genes: &[i64]) -> Vec<i64> {
    let mut rng = ChaCha8Rng::from_seed(Default::default());
    let mut child = Chromosome::new(genes.to_vec());
    GaussianMutation::new(chance, coeff).mutate(&mut rng, &mut child);
    child.into_genes()
}

#[test]
fn mutation_without_chance_changes_nothing() {
    let genes = [1_000_000, 2_000_000, 3_000_000, 4_000_000, 5_000_000];
    assert_eq!(mutated(0, 0, &genes), genes);
    assert_eq!(mutated(0, 500_000, &genes), genes);
}

#[test]
fn mutation_without_coefficient_changes_nothing() {
    let genes = [1_000_000, 2_000_000, 3_000_000, 4_000_000, 5_000_000];
    assert_eq!(mutated(1_000_000, 0, &genes), genes);
    assert_eq!(mutated(500_000, 0, &genes), genes);
}

#[test]
fn certain_mutation_moves_every_gene_by_the_coefficient_at_most() {
    let genes: Vec<i64> = (0..50).map(|k| k * 1_000_000).collect();
    let after = mutated(1_000_000, 500_000, &genes);
    assert_eq!(after.len(), genes.len());
    for (before, after) in genes.iter().zip(&after) {
        assert!(before != after);
        assert!((after - before).abs() <= 500_000);
    }
    assert!(genes.iter().zip(&after).any(|(before, after)| after > before));
    assert!(genes.iter().zip(&after).any(|(before, after)| after < before));
}

#[test]
fn likely_mutation_moves_some_genes() {
    let genes: Vec<i64> = (0..200).map(|k| k * 1_000_000).collect();
    let after = mutated(500_000, 500_000, &genes);
    let changed = genes.iter().zip(&after).filter(|(before, after)| before != after).count();
    assert!((60..=140).contains(&changed));
    for (before, after) in genes.iter().zip(&after) {
        assert!((after - before).abs() <= 500_000);
    }
}

#[test]
fn mutation_saturates_at_the_ends() {
    let after = mutated(1_000_000, 1_000_000, &[i64::MAX, i64::MIN, i64::MAX, i64::MIN]);
    assert!(after[0] > i64::MAX - 1_000_000 && after[2] > i64::MAX - 1_000_000);
    assert!(after[1] < i64::MIN + 1_000_000 && after[3] < i64::MIN + 1_000_000);
}

#[test]
fn mutation_keeps_its_parameters() {
    let method = GaussianMutation::new(10_000, 300_000);
    assert_eq!(method.chance(), 10_000);
    assert_eq!(method.coeff(), 300_000);
}

#[test]
fn evolve_keeps_the_size_of_the_population() {
    let algorithm = GeneticAlgorithm::new(
        RouletteWheelSelection::new(),
        UniformCrossover::new(),
        GaussianMutation::new(500_000, 500_000),
    );
    let population = vec![
        individual(&[0, 0, 0]),
        individual(&[1_000_000, 1_000_000, 1_000_000]),
        individual(&[1_000_000, 2_000_000, 1_000_000]),
        individual(&[1_000_000, 2_000_000, 4_000_000]),
    ];
    let mut rng = ChaCha8Rng::from_seed(Default::default());
    let next = algorithm.evolve(&mut rng, &population);
    assert_eq!(next.len(), population.len());
    for child in &next {
        let genes = child.chromosome().genes();
        assert_eq!(genes.len(), 3);
        // Every gene is a gene of a parent of positive fitness at its place, moved by
        // the coefficient at most.
        let places = [vec![1_000_000], vec![1_000_000, 2_000_000], vec![1_000_000, 4_000_000]];
        for (gene, parents) in genes.iter().zip(&places) {
            assert!(parents.iter().any(|parent| (gene - parent).abs() <= 500_000));
        }
    }
    // The parents stay as they were.
    assert_eq!(population[3].chromosome().genes(), &vec![1_000_000, 2_000_000, 4_000_000]);
}

#[test]
fn evolve_without_mutation_only_mixes() {
    let algorithm = GeneticAlgorithm::new(
        RouletteWheelSelection::new(),
        UniformCrossover::new(),
        GaussianMutation::new(0, 0),
    );
    let population = vec![individual(&[1_000_000, 5_000_000]), individual(&[2_000_000, 7_000_000])];
    let mut rng = ChaCha8Rng::seed_from_u64(5);
    for _ in 0..20 {
        for child in algorithm.evolve(&mut rng, &population) {
            let genes = child.chromosome().genes().clone();
            assert!(genes[0] == 1_000_000 || genes[0] == 2_000_000);
            assert!(genes[1] == 5_000_000 || genes[1] == 7_000_000);
        }
    }
}

#[test]
fn evolve_follows_the_seed() {
    let algorithm = GeneticAlgorithm::new(
        RouletteWheelSelection::new(),
        UniformCrossover::new(),
        GaussianMutation::new(500_000, 500_000),
    );
    let population = vec![individual(&[1_000_000, 5_000_000]), individual(&[2_000_000, 7_000_000])];
    let genes_of = |seed: u64| -> Vec<Vec<i64>> {
        let mut rng = ChaCha8Rng::seed_from_u64(seed);
        algorithm
            .evolve(&mut rng, &population)
            .iter()
            .map(|child| child.chromosome().genes().clone())
            .collect()
    };
    assert_eq!(genes_of(42), genes_of(42));
}
