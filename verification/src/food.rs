//! Food: something to eat at a place of the world.

use crate::geometry::Point;
use crate::random::is_unit;
use rand_chacha::ChaCha8Rng;
use vstd::prelude::*;

verus! {

/// A piece of food. Its view is the place where it is.
#[derive(Debug)]
pub struct Food {
    pub(crate) position: Point,
}

impl View for Food {
    type V = Point;

    closed spec fn view(&self) -> Point {
        self.position
    }
}

/// Where the foods are.
pub open spec fn food_places(foods: Seq<Food>) -> Seq<Point> {
    foods.map_values(|food: Food| food@)
}

impl Food {
    /// Food at the given place.
    pub fn new(position: Point) -> (food: Food)
        ensures
            food@ == position,
    {
        Food { position }
    }

    /// Food at a place drawn as [`Point::random`] draws it: both coordinates
    /// are numbers that a word of the random source stands for, the first
    /// one drawn first.
    pub fn random(rng: &mut ChaCha8Rng) -> (food: Food)
        ensures
            food@.in_world(),
            is_unit(food@.x),
            is_unit(food@.y),
    {
        Food { position: Point::random(rng) }
    }

    /// Puts the food at a place drawn uniformly.
    pub(crate) fn relocate(&mut self, rng: &mut ChaCha8Rng)
        ensures
            final(self)@.in_world(),
    {
        self.position = Point::random(rng);
    }

    /// Where the food is.
    pub fn position(&self) -> (position: Point)
        ensures
            position == self@,
    {
        self.position
    }
}

} // verus!
