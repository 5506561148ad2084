//! The world: the animals and the foods.

use crate::animal::{Animal, AnimalModel, SPEED_AT_BIRTH};
use crate::food::{food_places, Food};
use crate::geometry::Point;
use crate::neural_network::unit_network;
use rand_chacha::ChaCha8Rng;
use vstd::prelude::*;

verus! {

/// The world. The numbers of its animals and of its foods never change.
#[derive(Debug)]
pub struct World {
    pub(crate) animals: Vec<Animal>,
    pub(crate) foods: Vec<Food>,
}

/// What a world is.
pub ghost struct WorldModel {
    /// The animals, in order.
    pub animals: Seq<AnimalModel>,
    /// The places of the foods, in order.
    pub foods: Seq<Point>,
}

/// What the animals are.
pub open spec fn animal_models(animals: Seq<Animal>) -> Seq<AnimalModel> {
    animals.map_values(|animal: Animal| animal@)
}

impl WorldModel {
    /// Every animal is well formed and every food is in the world.
    pub open spec fn wf(self) -> bool {
        &&& forall|i: int| 0 <= i < self.animals.len() ==> (#[trigger] self.animals[i]).wf()
        &&& forall|j: int| 0 <= j < self.foods.len() ==> (#[trigger] self.foods[j]).in_world()
    }
}

impl View for World {
    type V = WorldModel;

    closed spec fn view(&self) -> WorldModel {
        self.model()
    }
}

impl World {
    /// What the world is, by its parts.
    pub(crate) open spec fn model(&self) -> WorldModel {
        WorldModel { animals: animal_models(self.animals@), foods: food_places(self.foods@) }
    }

    /// The view of the world is what the world is by its parts.
    pub(crate) proof fn lemma_model(&self)
        ensures
            self@ == self.model(),
    {
    }

    /// A world of so many random animals and so many foods at random places.
    /// The animals are drawn first, each as [`Animal::random`] draws it: no
    /// animal has eaten, and every gene of every brain lies between minus
    /// one and one.
    pub fn random(rng: &mut ChaCha8Rng, num_animals: u32, num_foods: u32) -> (world: World)
        ensures
            world@.wf(),
            world@.animals.len() == num_animals,
            world@.foods.len() == num_foods,
            forall|i: int|
                0 <= i < world@.animals.len() ==> {
                    &&& (#[trigger] world@.animals[i]).satiation == 0
                    &&& world@.animals[i].speed == SPEED_AT_BIRTH
                    &&& unit_network(world@.animals[i].brain)
                },
    {
        let mut animals: Vec<Animal> = Vec::new();
        let mut i: u32 = 0;
        while i < num_animals
            invariant
                i <= num_animals,
                animals@.len() == i,
                forall|n: int|
                    0 <= n < i ==> {
                        &&& (#[trigger] animals@[n])@.wf()
                        &&& animals@[n]@.satiation == 0
                        &&& animals@[n]@.speed == SPEED_AT_BIRTH
                        &&& unit_network(animals@[n]@.brain)
                    },
            decreases num_animals - i,
        {
            let animal = Animal::random(rng);
            animals.push(animal);
            i += 1;
        }
        let mut foods: Vec<Food> = Vec::new();
        let mut j: u32 = 0;
        while j < num_foods
            invariant
                j <= num_foods,
                foods@.len() == j,
                forall|n: int| 0 <= n < j ==> (#[trigger] foods@[n])@.in_world(),
            decreases num_foods - j,
        {
            let food = Food::random(rng);
            foods.push(food);
            j += 1;
        }
        World { animals, foods }
    }

    /// The animals.
    pub fn animals(&self) -> (animals: &[Animal])
        ensures
            animal_models(animals@) == self@.animals,
    {
        self.animals.as_slice()
    }

    /// The foods.
    pub fn foods(&self) -> (foods: &[Food])
        ensures
            food_places(foods@) == self@.foods,
    {
        self.foods.as_slice()
    }
}

} // verus!
