//! The simulation: a world that is stepped, and that breeds its animals
//! anew after every generation.

use crate::animal::{brain_topology, moved_by, steered_by, Animal, AnimalModel, SPEED_AT_BIRTH};
use crate::animal_individual::{fitness_of_satiation, AnimalIndividual};
use crate::eye::measures;
use crate::genetic_algorithm::crossover::{CrossoverMethod, UniformCrossover};
use crate::genetic_algorithm::mutation::{GaussianMutation, MutationMethod};
use crate::genetic_algorithm::selection::{spinnable, RouletteWheelSelection, SelectionMethod};
use crate::genetic_algorithm::{fitness_of, GeneticAlgorithm, Individual};
use crate::geometry::{near, Point, Polar, Vector};
use crate::neural_network::{gene_count, lemma_gene_count, network_genes, unit_network};
use crate::world::{World, WorldModel};
use rand_chacha::ChaCha8Rng;
use vstd::prelude::*;

verus! {

/// The number of steps of one generation.
pub const GENERATION_LENGTH: usize = 2500;

/// How near food must be to an animal to be eaten.
pub const EATING_RANGE: i64 = 10_000;

/// The chance that a gene of a newborn animal is changed.
pub const MUTATION_CHANCE: i64 = 10_000;

/// The largest change of a gene of a newborn animal.
pub const MUTATION_COEFF: i64 = 300_000;

/// The number of animals of a simulation.
pub const ANIMALS: u32 = 40;

/// The number of foods of a simulation.
pub const FOODS: u32 = 60;

/// The genetic algorithm of a simulation.
pub type Breeder = GeneticAlgorithm<RouletteWheelSelection, UniformCrossover, GaussianMutation>;

/// A simulation: a world, the genetic algorithm that breeds its animals,
/// and the age of the generation in steps.
#[derive(Debug)]
pub struct Simulation {
    world: World,
    ga: Breeder,
    age: usize,
}

/// What a step of the simulation came to.
#[derive(Clone, Copy, Debug, PartialEq, Eq, Structural)]
pub enum Outcome {
    /// The animals sensed and acted, and the generation goes on.
    Advanced,
    /// The animals sensed and acted, the generation was over, and a new
    /// generation was bred.
    Evolved,
    /// The animals sensed and acted, and the generation was over, but no
    /// new one could be bred because no animal has eaten.
    Stalled,
}

/// An animal is near enough to a food to eat it.
pub open spec fn touches(world: WorldModel) -> bool {
    exists|i: int, j: int|
        0 <= i < world.animals.len() && 0 <= j < world.foods.len() && near(
            (#[trigger] world.animals[i]).position,
            #[trigger] world.foods[j],
            EATING_RANGE,
        )
}

/// The world after the animal at `i` has met the food at `j`: if the food is
/// near enough, the animal has eaten once more and the food is at `spot`.
pub open spec fn met(world: WorldModel, i: int, j: int, spot: Point) -> WorldModel {
    if near(world.animals[i].position, world.foods[j], EATING_RANGE) {
        WorldModel {
            animals: world.animals.update(i, world.animals[i].fed()),
            foods: world.foods.update(j, spot),
        }
    } else {
        world
    }
}

/// The world after the first `count` meetings. The animals take their turn
/// in order, and each meets every food in order; `spots` holds, for each
/// meeting, the place where the food comes back if it is eaten.
pub open spec fn eaten(world: WorldModel, spots: Seq<Point>, count: nat) -> WorldModel
    decreases count,
{
    if count == 0 {
        world
    } else {
        let last = count - 1;
        met(
            eaten(world, spots, last as nat),
            last / world.foods.len() as int,
            last % world.foods.len() as int,
            spots[last],
        )
    }
}

/// What the collisions may make of a world: every animal has met every
/// food, and food that was eaten has come back at some place of the world.
pub open spec fn collided(before: WorldModel, after: WorldModel) -> bool {
    exists|spots: Seq<Point>|
        {
            &&& spots.len() == before.animals.len() * before.foods.len()
            &&& forall|k: int| 0 <= k < spots.len() ==> (#[trigger] spots[k]).in_world()
            &&& after == #[trigger] eaten(before, spots, spots.len())
        }
}

/// The meetings keep the numbers of animals and foods, and keep a world
/// well formed.
pub proof fn lemma_eaten_shape(world: WorldModel, spots: Seq<Point>, count: nat)
    requires
        world.wf(),
        count <= spots.len(),
        count <= world.animals.len() * world.foods.len(),
        forall|k: int| 0 <= k < spots.len() ==> (#[trigger] spots[k]).in_world(),
    ensures
        eaten(world, spots, count).wf(),
        eaten(world, spots, count).animals.len() == world.animals.len(),
        eaten(world, spots, count).foods.len() == world.foods.len(),
    decreases count,
{
    if count > 0 {
        let last = (count - 1) as nat;
        lemma_eaten_shape(world, spots, last);
        lemma_meeting(world.animals.len() as int, world.foods.len() as int, last as int);
        assert(spots[last as int].in_world());
    }
}

/// The meeting of a given number is that of an animal and a food.
proof fn lemma_meeting(animals: int, foods: int, number: int)
    requires
        0 <= animals,
        0 <= foods,
        0 <= number < animals * foods,
    ensures
        foods > 0,
        0 <= number / foods < animals,
        0 <= number % foods < foods,
{
    assert(foods > 0) by (nonlinear_arith)
        requires
            0 <= animals,
            0 <= foods,
            0 <= number < animals * foods,
    ;
    vstd::arithmetic::div_mod::lemma_fundamental_div_mod(number, foods);
    let q = number / foods;
    let r = number % foods;
    assert(0 <= q < animals) by (nonlinear_arith)
        requires
            0 <= number < animals * foods,
            foods > 0,
            number == foods * q + r,
            0 <= r < foods,
    ;
}

/// How many of the first `count` meetings are those of the animal at `i`.
pub open spec fn turns(count: int, foods: int, i: int) -> int {
    if foods <= 0 {
        0
    } else if i < count / foods {
        foods
    } else if i == count / foods {
        count % foods
    } else {
        0
    }
}

/// The meetings change nothing of an animal but what it has eaten, and an
/// animal eats once at most at each of its meetings.
pub proof fn lemma_eaten_appetite(world: WorldModel, spots: Seq<Point>, count: nat)
    requires
        count <= world.animals.len() * world.foods.len(),
    ensures
        eaten(world, spots, count).animals.len() == world.animals.len(),
        eaten(world, spots, count).foods.len() == world.foods.len(),
        forall|i: int|
            0 <= i < world.animals.len() ==> {
                let after = #[trigger] eaten(world, spots, count).animals[i];
                &&& after == (AnimalModel { satiation: after.satiation, ..world.animals[i] })
                &&& world.animals[i].satiation <= after.satiation <= world.animals[i].satiation
                    + turns(count as int, world.foods.len() as int, i)
            },
    decreases count,
{
    let n = world.animals.len() as int;
    let m = world.foods.len() as int;
    if count > 0 {
        let last = (count - 1) as nat;
        lemma_eaten_appetite(world, spots, last);
        lemma_meeting(n, m, last as int);
        let i0 = last as int / m;
        let j0 = last as int % m;
        vstd::arithmetic::div_mod::lemma_fundamental_div_mod(last as int, m);
        assert(last == m * i0 + j0);
        if j0 + 1 < m {
            vstd::arithmetic::div_mod::lemma_fundamental_div_mod_converse(
                count as int,
                m,
                i0,
                j0 + 1,
            );
        } else {
            assert(count == (i0 + 1) * m + 0) by (nonlinear_arith)
                requires
                    count == last + 1,
                    last == m * i0 + j0,
                    j0 + 1 == m,
            ;
            vstd::arithmetic::div_mod::lemma_fundamental_div_mod_converse(
                count as int,
                m,
                i0 + 1,
                0,
            );
        }
        let before = eaten(world, spots, last);
        let after = eaten(world, spots, count);
        assert(after == met(before, i0, j0, spots[last as int]));
        assert forall|i: int| 0 <= i < n implies {
            let now = #[trigger] after.animals[i];
            &&& now == (AnimalModel { satiation: now.satiation, ..world.animals[i] })
            &&& world.animals[i].satiation <= now.satiation <= world.animals[i].satiation + turns(
                count as int,
                m,
                i,
            )
        } by {
            let then = before.animals[i];
            assert(turns(last as int, m, i) <= turns(count as int, m, i));
            if i == i0 {
                assert(turns(last as int, m, i) + 1 <= turns(count as int, m, i));
            }
        }
    } else {
        assert forall|i: int| 0 <= i < n implies #[trigger] turns(0, m, i) >= 0 by {
            if m > 0 {
                assert(0int / m == 0 && 0int % m == 0) by (nonlinear_arith)
                    requires
                        m > 0,
                ;
            }
        }
    }
}

/// The collisions keep the numbers of animals and foods and change nothing
/// of an animal but what it has eaten, to which they add as much as there
/// are foods at most.
pub proof fn lemma_collided_appetite(before: WorldModel, after: WorldModel)
    requires
        collided(before, after),
    ensures
        after.animals.len() == before.animals.len(),
        after.foods.len() == before.foods.len(),
        forall|i: int|
            0 <= i < before.animals.len() ==> {
                let now = #[trigger] after.animals[i];
                &&& now == (AnimalModel { satiation: now.satiation, ..before.animals[i] })
                &&& before.animals[i].satiation <= now.satiation <= before.animals[i].satiation
                    + before.foods.len()
            },
{
    let spots = choose|spots: Seq<Point>|
        {
            &&& spots.len() == before.animals.len() * before.foods.len()
            &&& forall|k: int| 0 <= k < spots.len() ==> (#[trigger] spots[k]).in_world()
            &&& after == #[trigger] eaten(before, spots, spots.len())
        };
    lemma_eaten_appetite(before, spots, spots.len());
    let n = before.animals.len() as int;
    let m = before.foods.len() as int;
    assert forall|i: int| 0 <= i < n implies #[trigger] turns(n * m, m, i) <= m by {
        if m > 0 {
            vstd::arithmetic::div_mod::lemma_fundamental_div_mod_converse(n * m, m, n, 0);
        }
    }
}

/// The first meetings depend on the first spots only.
proof fn lemma_eaten_prefix(world: WorldModel, spots: Seq<Point>, more: Seq<Point>, count: nat)
    requires
        count <= spots.len(),
        count <= more.len(),
        forall|k: int| 0 <= k < count ==> spots[k] == more[k],
    ensures
        eaten(world, spots, count) == eaten(world, more, count),
    decreases count,
{
    if count > 0 {
        lemma_eaten_prefix(world, spots, more, (count - 1) as nat);
    }
}

/// Where no animal is near enough to any food, the collisions change
/// nothing.
pub proof fn lemma_quiet_world(before: WorldModel, after: WorldModel)
    requires
        collided(before, after),
        !touches(before),
    ensures
        after == before,
{
    let spots = choose|spots: Seq<Point>|
        {
            &&& spots.len() == before.animals.len() * before.foods.len()
            &&& forall|k: int| 0 <= k < spots.len() ==> (#[trigger] spots[k]).in_world()
            &&& after == #[trigger] eaten(before, spots, spots.len())
        };
    lemma_quiet_meetings(before, spots, spots.len());
}

proof fn lemma_quiet_meetings(world: WorldModel, spots: Seq<Point>, count: nat)
    requires
        !touches(world),
        count <= world.animals.len() * world.foods.len(),
    ensures
        eaten(world, spots, count) == world,
    decreases count,
{
    if count > 0 {
        let last = (count - 1) as nat;
        lemma_quiet_meetings(world, spots, last);
        lemma_meeting(world.animals.len() as int, world.foods.len() as int, last as int);
        let i = last as int / world.foods.len() as int;
        let j = last as int % world.foods.len() as int;
        assert(!near(world.animals[i].position, world.foods[j], EATING_RANGE));
    }
}

/// What the brains may make of a world: the foods stay, and every animal
/// steers by what it sees of them.
pub open spec fn thought<P: Fn(Vector) -> Polar>(
    polar: &P,
    before: WorldModel,
    after: WorldModel,
) -> bool {
    &&& after.foods == before.foods
    &&& after.animals.len() == before.animals.len()
    &&& forall|i: int|
        0 <= i < before.animals.len() ==> steered_by(
            polar,
            before.foods,
            before.animals[i],
            #[trigger] after.animals[i],
        )
}

/// What the movements may make of a world: the foods stay, and every animal
/// makes one stride.
pub open spec fn moved<H: Fn(Polar) -> Vector>(
    heading: &H,
    before: WorldModel,
    after: WorldModel,
) -> bool {
    &&& after.foods == before.foods
    &&& after.animals.len() == before.animals.len()
    &&& forall|i: int|
        0 <= i < before.animals.len() ==> moved_by(
            heading,
            before.animals[i],
            #[trigger] after.animals[i],
        )
}

/// What sensing and acting may make of a world: first the collisions, then
/// the brains, which see the foods as the collisions left them, then the
/// movements.
pub open spec fn acted<P: Fn(Vector) -> Polar, H: Fn(Polar) -> Vector>(
    polar: &P,
    heading: &H,
    before: WorldModel,
    after: WorldModel,
) -> bool {
    exists|eaten: WorldModel, steered: WorldModel|
        #![trigger collided(before, eaten), moved(heading, steered, after)]
        collided(before, eaten) && thought(polar, eaten, steered) && moved(
            heading,
            steered,
            after,
        )
}

/// Some animal has eaten.
pub open spec fn has_eaten(animals: Seq<AnimalModel>) -> bool {
    exists|i: int| 0 <= i < animals.len() && (#[trigger] animals[i]).satiation > 0
}

/// The world is small enough for a generation to be counted: if every
/// animal ate every food at every step of a generation, a fitness could
/// still count what all have eaten together.
pub open spec fn countable(world: WorldModel) -> bool {
    world.animals.len() * world.foods.len() * (GENERATION_LENGTH + 1) <= u32::MAX
}

/// No animal has eaten more than all the foods at each step of a
/// generation of the given age; in a generation that could not be replaced
/// when it was over, none has eaten at all.
pub open spec fn paced(world: WorldModel, age: nat) -> bool {
    forall|i: int|
        0 <= i < world.animals.len() ==> {
            &&& (#[trigger] world.animals[i]).satiation <= age * world.foods.len()
            &&& age > GENERATION_LENGTH ==> world.animals[i].satiation == 0
        }
}

/// The fitness of each animal: what it has eaten.
pub open spec fn fitness_by_satiation(animals: Seq<AnimalModel>) -> Seq<u32> {
    animals.map_values(|animal: AnimalModel| fitness_of_satiation(animal.satiation))
}

/// The individuals stand for the animals, each for the one at its place: it
/// has the fitness of the animal and the genes of its brain.
pub open spec fn stand_for(population: Seq<AnimalIndividual>, animals: Seq<AnimalModel>) -> bool {
    &&& population.len() == animals.len()
    &&& forall|i: int|
        0 <= i < animals.len() ==> {
            &&& (#[trigger] population[i]).spec_fitness() == fitness_of_satiation(
                animals[i].satiation,
            )
            &&& population[i].spec_chromosome() == network_genes(animals[i].brain)
        }
}

/// The animal is newly born: well formed, at the speed of birth, and it has
/// not eaten.
pub open spec fn newborn(animal: AnimalModel) -> bool {
    animal.wf() && animal.satiation == 0 && animal.speed == SPEED_AT_BIRTH
}

/// `children` is a generation that the breeder may breed of `parents`: as
/// many newborn animals, the genes of whose brains the breeder may breed of
/// the individuals that stand for the parents.
pub open spec fn bred(
    breeder: Breeder,
    parents: Seq<AnimalModel>,
    children: Seq<AnimalModel>,
) -> bool {
    &&& children.len() == parents.len()
    &&& exists|population: Seq<AnimalIndividual>|
        #[trigger] stand_for(population, parents) && forall|i: int|
            0 <= i < children.len() ==> newborn(#[trigger] children[i]) && breeder.may_breed(
                population,
                network_genes(children[i].brain),
            )
}

/// Sensing and acting keeps the numbers of animals and foods, and adds to
/// what an animal has eaten as much as there are foods at most.
pub proof fn lemma_acted_appetite<P: Fn(Vector) -> Polar, H: Fn(Polar) -> Vector>(
    polar: &P,
    heading: &H,
    before: WorldModel,
    after: WorldModel,
)
    requires
        acted(polar, heading, before, after),
    ensures
        after.animals.len() == before.animals.len(),
        after.foods.len() == before.foods.len(),
        forall|i: int|
            0 <= i < before.animals.len() ==> before.animals[i].satiation <= (
            #[trigger] after.animals[i]).satiation <= before.animals[i].satiation
                + before.foods.len(),
{
    let (eaten, steered) = choose|eaten: WorldModel, steered: WorldModel|
        #![trigger collided(before, eaten), moved(heading, steered, after)]
        collided(before, eaten) && thought(polar, eaten, steered) && moved(
            heading,
            steered,
            after,
        );
    lemma_collided_appetite(before, eaten);
    assert forall|i: int| 0 <= i < before.animals.len() implies before.animals[i].satiation <= (
    #[trigger] after.animals[i]).satiation <= before.animals[i].satiation
        + before.foods.len() by {
        assert(steered_by(polar, eaten.foods, eaten.animals[i], steered.animals[i]));
        assert(moved_by(heading, steered.animals[i], after.animals[i]));
        assert(steered.animals[i].satiation == eaten.animals[i].satiation);
        assert(after.animals[i].satiation == steered.animals[i].satiation);
    }
}

/// In a world that is small enough for a generation to be counted, after
/// a generation no longer than a generation lasts, the selection can pick
/// among the animals exactly when one of them has eaten.
pub proof fn lemma_eaten_can_breed(world: WorldModel)
    requires
        countable(world),
        forall|i: int|
            0 <= i < world.animals.len() ==> (#[trigger] world.animals[i]).satiation <= (
            GENERATION_LENGTH + 1) * world.foods.len(),
    ensures
        spinnable(fitness_by_satiation(world.animals)) <==> has_eaten(world.animals),
{
    let n = world.animals.len();
    let m = world.foods.len();
    let bound = ((GENERATION_LENGTH + 1) * m) as nat;
    let fitness = fitness_by_satiation(world.animals);
    assert(n * bound <= u32::MAX) by (nonlinear_arith)
        requires
            n * m * (GENERATION_LENGTH + 1) <= u32::MAX,
            bound == (GENERATION_LENGTH + 1) * m,
    ;
    assert(n > 0 ==> bound <= u32::MAX) by (nonlinear_arith)
        requires
            n * bound <= u32::MAX,
            bound >= 0,
    ;
    assert forall|k: int| 0 <= k < fitness.len() implies #[trigger] fitness[k] <= bound
        && fitness[k] == world.animals[k].satiation by {
        assert(world.animals[k].satiation <= bound);
    }
    crate::genetic_algorithm::selection::lemma_total_bound(fitness, bound);
    crate::genetic_algorithm::selection::lemma_total_positive(fitness);
    if has_eaten(world.animals) {
        let i = choose|i: int|
            0 <= i < world.animals.len() && (#[trigger] world.animals[i]).satiation > 0;
        assert(fitness[i] > 0);
    }
    if spinnable(fitness) {
        let k = choose|k: int| 0 <= k < fitness.len() && #[trigger] fitness[k] > 0;
        assert(world.animals[k].satiation > 0);
    }
}

/// What a step may make of a simulation: the animals sense and act, and
/// the step comes to its outcome.
pub open spec fn stepped<P: Fn(Vector) -> Polar, H: Fn(Polar) -> Vector>(
    polar: &P,
    heading: &H,
    breeder: Breeder,
    before: WorldModel,
    age: nat,
    outcome: Outcome,
    after: WorldModel,
    after_age: nat,
) -> bool {
    exists|acted_world: WorldModel|
        #[trigger] acted(polar, heading, before, acted_world) && concluded(
            breeder,
            acted_world,
            age,
            outcome,
            after,
            after_age,
        )
}

/// What a step may come to, given the world after sensing and acting and
/// the age before the step: the generation goes on until it has lasted its
/// length; then it is replaced if an animal has eaten, and stalls if none
/// has.
pub open spec fn concluded(
    breeder: Breeder,
    acted: WorldModel,
    age: nat,
    outcome: Outcome,
    after: WorldModel,
    after_age: nat,
) -> bool {
    match outcome {
        Outcome::Advanced => {
            &&& age < GENERATION_LENGTH
            &&& after_age == age + 1
            &&& after == acted
        },
        Outcome::Evolved => {
            &&& age >= GENERATION_LENGTH
            &&& after_age == 0
            &&& has_eaten(acted.animals)
            &&& bred(breeder, acted.animals, after.animals)
            &&& after.foods.len() == acted.foods.len()
            &&& forall|j: int| 0 <= j < after.foods.len() ==> (#[trigger] after.foods[j]).in_world()
        },
        Outcome::Stalled => {
            &&& age >= GENERATION_LENGTH
            &&& after_age == GENERATION_LENGTH + 1
            &&& !has_eaten(acted.animals)
            &&& after == acted
        },
    }
}

/// The step that ends a generation in which an animal has eaten replaces
/// the generation: the age is zero again, every animal is newborn with a
/// brain bred of the brains before, and the numbers of animals and foods
/// are kept.
pub proof fn lemma_generation_ends<P: Fn(Vector) -> Polar, H: Fn(Polar) -> Vector>(
    polar: &P,
    heading: &H,
    breeder: Breeder,
    before: WorldModel,
    age: nat,
    outcome: Outcome,
    after: WorldModel,
    after_age: nat,
)
    requires
        stepped(polar, heading, breeder, before, age, outcome, after, after_age),
        age >= GENERATION_LENGTH,
        has_eaten(before.animals),
    ensures
        outcome == Outcome::Evolved,
        after_age == 0,
        after.animals.len() == before.animals.len(),
        after.foods.len() == before.foods.len(),
        forall|i: int| 0 <= i < after.animals.len() ==> newborn(#[trigger] after.animals[i]),
        exists|acted_world: WorldModel|
            #[trigger] acted(polar, heading, before, acted_world) && bred(
                breeder,
                acted_world.animals,
                after.animals,
            ),
{
    let acted_world = choose|acted_world: WorldModel|
        #[trigger] acted(polar, heading, before, acted_world) && concluded(
            breeder,
            acted_world,
            age,
            outcome,
            after,
            after_age,
        );
    lemma_acted_appetite(polar, heading, before, acted_world);
    let i = choose|i: int|
        0 <= i < before.animals.len() && (#[trigger] before.animals[i]).satiation > 0;
    assert(acted_world.animals[i].satiation > 0);
    assert(has_eaten(acted_world.animals));
}

/// A step keeps the numbers of animals and foods. Before a generation has
/// lasted its length the step advances, and the generation is one step
/// older.
pub proof fn lemma_step_shape<P: Fn(Vector) -> Polar, H: Fn(Polar) -> Vector>(
    polar: &P,
    heading: &H,
    breeder: Breeder,
    before: WorldModel,
    age: nat,
    outcome: Outcome,
    after: WorldModel,
    after_age: nat,
)
    requires
        stepped(polar, heading, breeder, before, age, outcome, after, after_age),
    ensures
        after.animals.len() == before.animals.len(),
        after.foods.len() == before.foods.len(),
        age < GENERATION_LENGTH ==> outcome == Outcome::Advanced && after_age == age + 1,
        age >= GENERATION_LENGTH ==> outcome != Outcome::Advanced,
        outcome == Outcome::Evolved <==> age >= GENERATION_LENGTH && after_age == 0,
{
    let acted_world = choose|acted_world: WorldModel|
        #[trigger] acted(polar, heading, before, acted_world) && concluded(
            breeder,
            acted_world,
            age,
            outcome,
            after,
            after_age,
        );
    lemma_acted_appetite(polar, heading, before, acted_world);
}

/// A run of steps from the beginning of a generation: every step keeps the
/// numbers of animals and foods; each of the first steps, as many as a
/// generation lasts, advances and makes the generation one step older; the
/// step after them does not advance, and if an animal has eaten by then it
/// replaces the generation, so that the age is zero again and every animal
/// is newborn.
pub proof fn lemma_generation<P: Fn(Vector) -> Polar, H: Fn(Polar) -> Vector>(
    polar: &P,
    heading: &H,
    breeder: Breeder,
    worlds: Seq<WorldModel>,
    ages: Seq<nat>,
    outcomes: Seq<Outcome>,
)
    requires
        outcomes.len() == GENERATION_LENGTH + 1,
        worlds.len() == outcomes.len() + 1,
        ages.len() == worlds.len(),
        ages[0] == 0,
        forall|k: int|
            0 <= k < outcomes.len() ==> stepped(
                polar,
                heading,
                breeder,
                worlds[k],
                ages[k],
                #[trigger] outcomes[k],
                worlds[k + 1],
                ages[k + 1],
            ),
    ensures
        forall|k: int| 0 <= k <= GENERATION_LENGTH ==> #[trigger] ages[k] == k,
        forall|k: int|
            0 <= k < GENERATION_LENGTH ==> #[trigger] outcomes[k] == Outcome::Advanced,
        forall|k: int|
            0 <= k < worlds.len() ==> (#[trigger] worlds[k]).animals.len()
                == worlds[0].animals.len() && worlds[k].foods.len() == worlds[0].foods.len(),
        outcomes[GENERATION_LENGTH as int] != Outcome::Advanced,
        outcomes[GENERATION_LENGTH as int] == Outcome::Evolved <==> ages[GENERATION_LENGTH + 1]
            <= 1,
        has_eaten(worlds[GENERATION_LENGTH as int].animals) ==> {
            &&& outcomes[GENERATION_LENGTH as int] == Outcome::Evolved
            &&& ages[GENERATION_LENGTH + 1] == 0
            &&& forall|i: int|
                0 <= i < worlds[GENERATION_LENGTH + 1].animals.len() ==> newborn(
                    #[trigger] worlds[GENERATION_LENGTH + 1].animals[i],
                )
        },
{
    assert forall|k: int| 0 <= k <= GENERATION_LENGTH + 1 implies (
    #[trigger] worlds[k]).animals.len() == worlds[0].animals.len() && worlds[k].foods.len()
        == worlds[0].foods.len() && (k <= GENERATION_LENGTH ==> ages[k] == k) by {
        lemma_generation_upto(polar, heading, breeder, worlds, ages, outcomes, k as nat);
    }
    assert forall|k: int| 0 <= k <= GENERATION_LENGTH implies #[trigger] ages[k] == k by {
        let _ = worlds[k];
    }
    assert forall|k: int| 0 <= k < GENERATION_LENGTH implies #[trigger] outcomes[k]
        == Outcome::Advanced by {
        let _ = worlds[k];
        assert(ages[k] == k);
        lemma_step_shape(
            polar,
            heading,
            breeder,
            worlds[k],
            ages[k],
            outcomes[k],
            worlds[k + 1],
            ages[k + 1],
        );
    }
    let last = GENERATION_LENGTH as int;
    let _ = worlds[last];
    assert(ages[last] == last);
    lemma_step_shape(
        polar,
        heading,
        breeder,
        worlds[last],
        ages[last],
        outcomes[last],
        worlds[last + 1],
        ages[last + 1],
    );
    if has_eaten(worlds[last].animals) {
        lemma_generation_ends(
            polar,
            heading,
            breeder,
            worlds[last],
            ages[last],
            outcomes[last],
            worlds[last + 1],
            ages[last + 1],
        );
    }
}

proof fn lemma_generation_upto<P: Fn(Vector) -> Polar, H: Fn(Polar) -> Vector>(
    polar: &P,
    heading: &H,
    breeder: Breeder,
    worlds: Seq<WorldModel>,
    ages: Seq<nat>,
    outcomes: Seq<Outcome>,
    k: nat,
)
    requires
        outcomes.len() == GENERATION_LENGTH + 1,
        worlds.len() == outcomes.len() + 1,
        ages.len() == worlds.len(),
        ages[0] == 0,
        k <= GENERATION_LENGTH + 1,
        forall|k: int|
            0 <= k < outcomes.len() ==> stepped(
                polar,
                heading,
                breeder,
                worlds[k],
                ages[k],
                #[trigger] outcomes[k],
                worlds[k + 1],
                ages[k + 1],
            ),
    ensures
        worlds[k as int].animals.len() == worlds[0].animals.len(),
        worlds[k as int].foods.len() == worlds[0].foods.len(),
        k <= GENERATION_LENGTH ==> ages[k as int] == k,
    decreases k,
{
    if k > 0 {
        let j = k - 1;
        lemma_generation_upto(polar, heading, breeder, worlds, ages, outcomes, j as nat);
        let _ = outcomes[j];
        lemma_step_shape(
            polar,
            heading,
            breeder,
            worlds[j],
            ages[j],
            outcomes[j],
            worlds[j + 1],
            ages[j + 1],
        );
    }
}

impl View for Simulation {
    type V = WorldModel;

    closed spec fn view(&self) -> WorldModel {
        self.world.model()
    }
}

impl Simulation {
    /// The number of steps since the generation began.
    pub closed spec fn spec_age(&self) -> nat {
        self.age as nat
    }

    /// The genetic algorithm that breeds the generations.
    pub closed spec fn algorithm(&self) -> Breeder {
        self.ga
    }

    /// The world is well formed, and the generation is not older than a
    /// generation can get.
    pub open spec fn sound(&self) -> bool {
        self@.wf() && self.spec_age() <= GENERATION_LENGTH + 1
    }

    /// The simulation is sound, its world is small enough for a generation
    /// to be counted, and no animal has eaten more than it can have found
    /// since the generation began.
    pub open spec fn wf(&self) -> bool {
        &&& self.sound()
        &&& countable(self@)
        &&& paced(self@, self.spec_age())
    }

    /// A simulation of a random world, at the beginning of a generation.
    pub fn random(rng: &mut ChaCha8Rng) -> (simulation: Simulation)
        ensures
            simulation.wf(),
            simulation.spec_age() == 0,
            simulation@.animals.len() == ANIMALS,
            simulation@.foods.len() == FOODS,
            forall|i: int|
                0 <= i < simulation@.animals.len() ==> newborn(#[trigger] simulation@.animals[i])
                    && unit_network(simulation@.animals[i].brain),
            simulation.algorithm().mutation().spec_chance() == MUTATION_CHANCE,
            simulation.algorithm().mutation().spec_coeff() == MUTATION_COEFF,
    {
        let world = World::random(rng, ANIMALS, FOODS);
        let ga = GeneticAlgorithm::new(
            RouletteWheelSelection::new(),
            UniformCrossover::new(),
            GaussianMutation::new(MUTATION_CHANCE, MUTATION_COEFF),
        );
        proof {
            world.lemma_model();
            let animals = world@.animals.len();
            let foods = world@.foods.len();
            assert(animals * foods * (GENERATION_LENGTH + 1) <= u32::MAX) by (nonlinear_arith)
                requires
                    animals == 40,
                    foods == 60,
                    GENERATION_LENGTH == 2500,
            ;
            assert(0 * foods == 0) by (nonlinear_arith);
        }
        Simulation { world, ga, age: 0 }
    }

    /// The world.
    pub fn world(&self) -> (world: &World)
        ensures
            world@ == self@,
    {
        proof {
            self.world.lemma_model();
        }
        &self.world
    }

    /// The number of steps since the generation began.
    pub fn age(&self) -> (age: usize)
        ensures
            age == self.spec_age(),
    {
        self.age
    }

    /// Advances the simulation by one step. The animals sense and act: the
    /// collisions, the brains, the movements. Then the generation is one
    /// step older; when it is older than a generation lasts, the animals
    /// are bred anew, if any of them has eaten, and the generation begins
    /// again. `polar` gives the length, which is never negative, and the
    /// bearing of a displacement, `heading` the displacement of a given
    /// length and bearing.
    pub fn step<P: Fn(Vector) -> Polar, H: Fn(Polar) -> Vector>(
        &mut self,
        rng: &mut ChaCha8Rng,
        polar: &P,
        heading: &H,
    ) -> (outcome: Outcome)
        requires
            old(self).wf(),
            measures(polar),
            forall|stride: Polar| call_requires(*heading, (stride,)),
        ensures
            final(self).wf(),
            final(self).algorithm() == old(self).algorithm(),
            final(self)@.animals.len() == old(self)@.animals.len(),
            final(self)@.foods.len() == old(self)@.foods.len(),
            stepped(
                polar,
                heading,
                old(self).algorithm(),
                old(self)@,
                old(self).spec_age(),
                outcome,
                final(self)@,
                final(self).spec_age(),
            ),
    {
        self.process_collisions(rng);
        let ghost eaten = self@;
        self.process_brains(polar);
        let ghost steered = self@;
        self.process_movements(heading);
        let ghost acted_world = self@;
        proof {
            assert(collided(old(self)@, eaten) && thought(polar, eaten, steered) && moved(
                heading,
                steered,
                acted_world,
            ));
            assert(acted(polar, heading, old(self)@, acted_world));
            lemma_acted_appetite(polar, heading, old(self)@, acted_world);
            let age = old(self).spec_age();
            let foods = acted_world.foods.len();
            assert(age * foods + foods == (age + 1) * foods) by (nonlinear_arith);
            assert(age <= GENERATION_LENGTH ==> (age + 1) * foods <= (GENERATION_LENGTH + 1)
                * foods) by (nonlinear_arith);
            assert(foods <= (GENERATION_LENGTH + 1) * foods) by (nonlinear_arith)
                requires
                    foods >= 0,
            ;
            assert forall|i: int| 0 <= i < acted_world.animals.len() implies (
            #[trigger] acted_world.animals[i]).satiation <= (age + 1) * foods
                && acted_world.animals[i].satiation <= (GENERATION_LENGTH + 1) * foods by {
                assert(old(self)@.animals[i].satiation <= age * foods);
            }
            if age >= GENERATION_LENGTH {
                lemma_eaten_can_breed(acted_world);
            }
        }
        if self.age < GENERATION_LENGTH {
            self.age += 1;
            Outcome::Advanced
        } else if self.can_evolve() {
            self.evolve(rng);
            proof {
                assert(paced(self@, 0)) by {
                    assert forall|i: int| 0 <= i < self@.animals.len() implies (
                    #[trigger] self@.animals[i]).satiation == 0 by {
                        assert(newborn(self@.animals[i]));
                    }
                }
            }
            Outcome::Evolved
        } else {
            self.age = GENERATION_LENGTH + 1;
            proof {
                assert forall|i: int| 0 <= i < self@.animals.len() implies (
                #[trigger] self@.animals[i]).satiation == 0 by {
                    if self@.animals[i].satiation > 0 {
                        assert(has_eaten(self@.animals));
                    }
                }
            }
            Outcome::Stalled
        }
    }

    /// The individuals that stand for the animals, in order.
    fn population(&self) -> (population: Vec<AnimalIndividual>)
        ensures
            stand_for(population@, self@.animals),
            fitness_of(population@) == fitness_by_satiation(self@.animals),
    {
        let ghost parents = self@.animals;
        let count: usize = self.world.animals.len();
        let mut population: Vec<AnimalIndividual> = Vec::new();
        let mut k: usize = 0;
        while k < count
            invariant
                k <= count,
                count == self.world.animals@.len(),
                parents == self@.animals,
                population@.len() == k,
                stand_for(population@, parents.take(k as int)),
            decreases count - k,
        {
            let individual = AnimalIndividual::from_animal(&self.world.animals[k]);
            population.push(individual);
            k += 1;
        }
        proof {
            assert(parents.take(k as int) =~= parents);
            assert(fitness_of(population@) =~= fitness_by_satiation(parents));
        }
        population
    }

    /// Whether a new generation can be bred: whether the selection can pick
    /// among the animals by what they have eaten.
    pub fn can_evolve(&self) -> (ok: bool)
        ensures
            ok == spinnable(fitness_by_satiation(self@.animals)),
    {
        let population = self.population();
        RouletteWheelSelection::can_select(population.as_slice())
    }

    /// Breeds the animals anew: every animal is replaced by a newborn one
    /// whose brain has genes bred of the brains of the animals before,
    /// every food is put at a place drawn uniformly, and the generation
    /// begins again. Some animal must have eaten: the selection picks by
    /// what the animals have eaten.
    fn evolve(&mut self, rng: &mut ChaCha8Rng)
        requires
            old(self).sound(),
            spinnable(fitness_by_satiation(old(self)@.animals)),
        ensures
            final(self).sound(),
            final(self).algorithm() == old(self).algorithm(),
            final(self).spec_age() == 0,
            bred(old(self).algorithm(), old(self)@.animals, final(self)@.animals),
            final(self)@.foods.len() == old(self)@.foods.len(),
    {
        let ghost parents = self@.animals;
        let count: usize = self.world.animals.len();
        let population = self.population();
        proof {
            assert forall|a: int| 0 <= a < population@.len() implies (
            #[trigger] population@[a]).spec_chromosome().len() == gene_count(brain_topology()) by {
                lemma_gene_count(parents[a].brain, brain_topology());
            }
            assert(self.ga.selection().accepts(fitness_of(population@)));
            assert(self.ga.can_breed(population@));
        }
        let evolved = self.ga.evolve(rng, population.as_slice());
        let ghost genomes = evolved@;
        proof {
            assert forall|n: int| 0 <= n < genomes.len() implies (
            #[trigger] genomes[n]).spec_chromosome().len() == gene_count(brain_topology()) by {
                let child = genomes[n].spec_chromosome();
                assert(self.ga.may_breed(population@, child));
                let (a, b, crossed) = choose|a: int, b: int, crossed: Seq<i64>|
                    {
                        &&& 0 <= a < population@.len()
                        &&& 0 <= b < population@.len()
                        &&& self.ga.selection().may_select(fitness_of(population@), a)
                        &&& self.ga.selection().may_select(fitness_of(population@), b)
                        &&& #[trigger] self.ga.crossover().may_yield(
                            population@[a].spec_chromosome(),
                            population@[b].spec_chromosome(),
                            crossed,
                        )
                        &&& self.ga.mutation().may_turn(crossed, child)
                    };
                assert(crossed.len() == population@[a].spec_chromosome().len());
            }
        }
        let mut animals: Vec<Animal> = Vec::new();
        for individual in iter: evolved
            invariant
                iter.seq() == genomes,
                genomes.len() == count,
                animals@.len() == iter.index(),
                forall|n: int|
                    0 <= n < genomes.len() ==> (#[trigger] genomes[n]).spec_chromosome().len()
                        == gene_count(brain_topology()),
                forall|n: int|
                    0 <= n < animals@.len() ==> newborn((#[trigger] animals@[n])@) && network_genes(
                        animals@[n]@.brain,
                    ) == genomes[n].spec_chromosome(),
        {
            let animal = individual.into_animal(rng);
            animals.push(animal);
        }
        self.world.animals = animals;
        let food_count: usize = self.world.foods.len();
        let mut j: usize = 0;
        while j < food_count
            invariant
                j <= food_count,
                food_count == self.world.foods@.len(),
                food_count == old(self)@.foods.len(),
                self.algorithm() == old(self).algorithm(),
                self.world.animals@.len() == count,
                genomes.len() == count,
                forall|n: int|
                    0 <= n < count ==> newborn((#[trigger] self.world.animals@[n])@)
                        && network_genes(self.world.animals@[n]@.brain)
                        == genomes[n].spec_chromosome(),
                forall|m: int| 0 <= m < j ==> (#[trigger] self.world.foods@[m])@.in_world(),
            decreases food_count - j,
        {
            self.world.foods[j].relocate(rng);
            j += 1;
        }
        self.age = 0;
        proof {
            assert(stand_for(population@, parents));
            assert forall|i: int| 0 <= i < self@.animals.len() implies newborn(
                #[trigger] self@.animals[i],
            ) && old(self).algorithm().may_breed(
                population@,
                network_genes(self@.animals[i].brain),
            ) by {
                assert(self@.animals[i] == self.world.animals@[i]@);
                assert(self.ga.may_breed(population@, genomes[i].spec_chromosome()));
            }
            assert(bred(old(self).algorithm(), parents, self@.animals));
        }
    }

    /// Lets every animal, in order, see the foods and steer by what its
    /// brain answers.
    fn process_brains<P: Fn(Vector) -> Polar>(&mut self, polar: &P)
        requires
            old(self).sound(),
            measures(polar),
        ensures
            final(self).sound(),
            final(self).spec_age() == old(self).spec_age(),
            final(self).algorithm() == old(self).algorithm(),
            thought(polar, old(self)@, final(self)@),
    {
        let ghost before = self@;
        let count: usize = self.world.animals.len();
        let mut i: usize = 0;
        while i < count
            invariant
                i <= count,
                count == before.animals.len(),
                before == old(self)@,
                self.sound(),
                self.spec_age() == old(self).spec_age(),
                self.algorithm() == old(self).algorithm(),
                self@.foods == before.foods,
                self@.animals.len() == count,
                measures(polar),
                forall|n: int|
                    0 <= n < i ==> steered_by(
                        polar,
                        before.foods,
                        before.animals[n],
                        #[trigger] self@.animals[n],
                    ),
                forall|n: int| i <= n < count ==> #[trigger] self@.animals[n] == before.animals[n],
            decreases count - i,
        {
            let ghost world = self@;
            proof {
                assert(self@.animals[i as int] == self.world.animals@[i as int]@);
            }
            self.world.animals[i].process_brain(self.world.foods.as_slice(), polar);
            proof {
                assert(self@.animals[i as int] == self.world.animals@[i as int]@);
                assert forall|n: int| 0 <= n < count && n != i implies #[trigger] self@.animals[n]
                    == world.animals[n] by {
                    assert(self@.animals[n] == self.world.animals@[n]@);
                }
                assert(self@.foods =~= before.foods);
            }
            i += 1;
        }
    }

    /// Lets every animal, in order, make one stride in the direction it
    /// faces, in a world that wraps around.
    fn process_movements<H: Fn(Polar) -> Vector>(&mut self, heading: &H)
        requires
            old(self).sound(),
            forall|stride: Polar| call_requires(*heading, (stride,)),
        ensures
            final(self).sound(),
            final(self).spec_age() == old(self).spec_age(),
            final(self).algorithm() == old(self).algorithm(),
            moved(heading, old(self)@, final(self)@),
    {
        let ghost before = self@;
        let count: usize = self.world.animals.len();
        let mut i: usize = 0;
        while i < count
            invariant
                i <= count,
                count == before.animals.len(),
                before == old(self)@,
                self.sound(),
                self.spec_age() == old(self).spec_age(),
                self.algorithm() == old(self).algorithm(),
                self@.foods == before.foods,
                self@.animals.len() == count,
                forall|stride: Polar| call_requires(*heading, (stride,)),
                forall|n: int|
                    0 <= n < i ==> moved_by(
                        heading,
                        before.animals[n],
                        #[trigger] self@.animals[n],
                    ),
                forall|n: int| i <= n < count ==> #[trigger] self@.animals[n] == before.animals[n],
            decreases count - i,
        {
            let ghost world = self@;
            proof {
                assert(self@.animals[i as int] == self.world.animals@[i as int]@);
            }
            self.world.animals[i].process_movement(heading);
            proof {
                assert(self@.animals[i as int] == self.world.animals@[i as int]@);
                assert forall|n: int| 0 <= n < count && n != i implies #[trigger] self@.animals[n]
                    == world.animals[n] by {
                    assert(self@.animals[n] == self.world.animals@[n]@);
                }
                assert(self@.foods =~= before.foods);
            }
            i += 1;
        }
    }

    /// Lets every animal, in order, eat every food, in order, that is near
    /// enough; food that is eaten is put at a place drawn uniformly.
    fn process_collisions(&mut self, rng: &mut ChaCha8Rng)
        requires
            old(self).sound(),
        ensures
            final(self).sound(),
            final(self).spec_age() == old(self).spec_age(),
            final(self).algorithm() == old(self).algorithm(),
            final(self)@.animals.len() == old(self)@.animals.len(),
            final(self)@.foods.len() == old(self)@.foods.len(),
            collided(old(self)@, final(self)@),
    {
        let ghost before = self@;
        let ghost mut spots: Seq<Point> = Seq::empty();
        let animal_count: usize = self.world.animals.len();
        let food_count: usize = self.world.foods.len();
        let mut i: usize = 0;
        proof {
            assert(0 * food_count == 0) by (nonlinear_arith);
        }
        while i < animal_count
            invariant
                i <= animal_count,
                before == old(self)@,
                before.wf(),
                animal_count == before.animals.len(),
                food_count == before.foods.len(),
                self.world.animals@.len() == animal_count,
                self.world.foods@.len() == food_count,
                self.spec_age() == old(self).spec_age(),
                self.algorithm() == old(self).algorithm(),
                spots.len() == i * food_count,
                forall|k: int| 0 <= k < spots.len() ==> (#[trigger] spots[k]).in_world(),
                self@ == eaten(before, spots, spots.len()),
            decreases animal_count - i,
        {
            let mut j: usize = 0;
            while j < food_count
                invariant
                    i < animal_count,
                    j <= food_count,
                    before == old(self)@,
                    before.wf(),
                    animal_count == before.animals.len(),
                    food_count == before.foods.len(),
                    self.world.animals@.len() == animal_count,
                    self.world.foods@.len() == food_count,
                    self.spec_age() == old(self).spec_age(),
                    self.algorithm() == old(self).algorithm(),
                    spots.len() == i * food_count + j,
                    forall|k: int| 0 <= k < spots.len() ==> (#[trigger] spots[k]).in_world(),
                    self@ == eaten(before, spots, spots.len()),
                decreases food_count - j,
            {
                let ghost world = self@;
                let ghost number = spots.len();
                let place = self.world.foods[j].position();
                let hit = self.world.animals[i].position().is_near(place, EATING_RANGE);
                proof {
                    assert(world.animals[i as int] == self.world.animals@[i as int]@);
                    assert(world.foods[j as int] == self.world.foods@[j as int]@);
                }
                if hit {
                    self.world.animals[i].feed();
                    self.world.foods[j].relocate(rng);
                }
                proof {
                    let spot = if hit {
                        self.world.foods@[j as int]@
                    } else {
                        Point { x: 0, y: 0 }
                    };
                    let more = spots.push(spot);
                    lemma_eaten_prefix(before, spots, more, number);
                    vstd::arithmetic::div_mod::lemma_fundamental_div_mod_converse(
                        number as int,
                        food_count as int,
                        i as int,
                        j as int,
                    );
                    if hit {
                        assert(self@.animals =~= world.animals.update(
                            i as int,
                            world.animals[i as int].fed(),
                        ));
                        assert(self@.foods =~= world.foods.update(j as int, spot));
                    }
                    assert(self@ == met(world, i as int, j as int, spot));
                    assert(more[number as int] == spot);
                    spots = more;
                }
                j += 1;
            }
            proof {
                assert(i * food_count + food_count == (i + 1) * food_count) by (nonlinear_arith);
            }
            i += 1;
        }
        proof {
            lemma_eaten_shape(before, spots, spots.len());
        }
    }
}

} // verus!
