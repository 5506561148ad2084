//! An animal: a body in the world, an eye and a brain.

use crate::eye::{measures, sighted, Eye, CELLS, FOV_ANGLE, FOV_RANGE};
use crate::fixed::{clamped, limit, limited, sum, FRAC_PI_2, PI};
use crate::food::{food_places, Food};
use crate::geometry::{carried, turn, turned, Point, Polar, Vector};
use crate::random::draw_rotation;
use crate::neural_network::{
    fits, network_output, unit_network, LayerTopology, Network, NetworkModel,
};
use rand_chacha::ChaCha8Rng;
use vstd::prelude::*;

verus! {

/// The lowest speed of an animal: above zero, so that none gets stuck.
pub const SPEED_MIN: i64 = 1_000;

/// The highest speed of an animal.
pub const SPEED_MAX: i64 = 5_000;

/// The speed of a newborn animal.
pub const SPEED_AT_BIRTH: i64 = 2_000;

/// By how much the brain can change the speed in one step.
pub const SPEED_ACCELERATION: i64 = 200_000;

/// By how much the brain can change the direction in one step.
pub const ROTATION_ACCELERATION: i64 = FRAC_PI_2;

/// An animal.
#[derive(Debug)]
pub struct Animal {
    pub(crate) position: Point,
    pub(crate) rotation: i64,
    pub(crate) eye: Eye,
    pub(crate) brain: Network,
    pub(crate) speed: i64,
    pub(crate) satiation: usize,
}

/// What an animal is.
pub ghost struct AnimalModel {
    /// Where it is.
    pub position: Point,
    /// The direction it faces, in radians.
    pub rotation: i64,
    /// Its eye.
    pub eye: Eye,
    /// Its brain.
    pub brain: NetworkModel,
    /// How far it moves in one step.
    pub speed: i64,
    /// How much it has eaten since its birth.
    pub satiation: nat,
}

/// The eye that every animal has.
pub open spec fn animal_eye() -> Eye {
    Eye { fov_range: FOV_RANGE, fov_angle: FOV_ANGLE, cells: CELLS }
}

/// The topology of the brain of every animal: one input for each cell of the
/// eye, twice as many hidden neurons, and two outputs.
pub open spec fn brain_topology() -> Seq<usize> {
    seq![CELLS, (2 * CELLS) as usize, 2usize]
}

/// What answers the brain gives to what the eye makes of the sightings.
pub open spec fn response(animal: AnimalModel, sightings: Seq<Polar>) -> Seq<i64> {
    network_output(animal.brain, animal.eye.vision(animal.rotation, sightings))
}

/// The animal after its brain has answered the sightings: the first answer,
/// held within the speed acceleration, is added to the speed, which stays
/// within its bounds; the second, held within the rotation acceleration,
/// turns the animal.
pub open spec fn steered(animal: AnimalModel, sightings: Seq<Polar>) -> AnimalModel {
    let answers = response(animal, sightings);
    let faster = limited(
        answers[0] as int,
        -SPEED_ACCELERATION as int,
        SPEED_ACCELERATION as int,
    );
    let turn = limited(
        answers[1] as int,
        -ROTATION_ACCELERATION as int,
        ROTATION_ACCELERATION as int,
    );
    AnimalModel {
        speed: limited(
            clamped(animal.speed + faster) as int,
            SPEED_MIN as int,
            SPEED_MAX as int,
        ) as i64,
        rotation: turned(animal.rotation, turn as i64),
        ..animal
    }
}

/// The animal after it has been moved by `step`.
pub open spec fn advanced(animal: AnimalModel, step: Vector) -> AnimalModel {
    AnimalModel { position: carried(animal.position, step), ..animal }
}

/// `after` is the animal `before` after its brain has answered what `polar`
/// may tell of the foods.
pub open spec fn steered_by<P: Fn(Vector) -> Polar>(
    polar: &P,
    foods: Seq<Point>,
    before: AnimalModel,
    after: AnimalModel,
) -> bool {
    exists|sightings: Seq<Polar>|
        #[trigger] sighted(polar, before.position, foods, sightings) && after == steered(
            before,
            sightings,
        )
}

/// `after` is the animal `before` after one stride, as `heading` may turn
/// the stride into a displacement.
pub open spec fn moved_by<H: Fn(Polar) -> Vector>(
    heading: &H,
    before: AnimalModel,
    after: AnimalModel,
) -> bool {
    exists|step: Vector|
        #[trigger] call_ensures(*heading, (before.stride(),), step) && after == advanced(
            before,
            step,
        )
}

impl AnimalModel {
    /// The animal is in the world, faces a direction above minus half a turn
    /// and up to half a turn, moves at a speed within the bounds, and has
    /// the eye and a brain of the topology of every animal.
    pub open spec fn wf(self) -> bool {
        &&& self.position.in_world()
        &&& -PI < self.rotation <= PI
        &&& SPEED_MIN <= self.speed <= SPEED_MAX
        &&& self.eye == animal_eye()
        &&& fits(self.brain, brain_topology())
    }

    /// The animal after it has eaten once more. (The count stops at the end
    /// of its type.)
    pub open spec fn fed(self) -> AnimalModel {
        AnimalModel {
            satiation: if self.satiation < usize::MAX {
                self.satiation + 1
            } else {
                self.satiation
            },
            ..self
        }
    }

    /// The way the animal moves in one step: as far as its speed, in the
    /// direction it faces.
    pub open spec fn stride(self) -> Polar {
        Polar { distance: self.speed, bearing: self.rotation }
    }
}

impl View for Animal {
    type V = AnimalModel;

    closed spec fn view(&self) -> AnimalModel {
        AnimalModel {
            position: self.position,
            rotation: self.rotation,
            eye: self.eye,
            brain: self.brain@,
            speed: self.speed,
            satiation: self.satiation as nat,
        }
    }
}

/// The topology of the brain of every animal.
pub(crate) fn brain_layers() -> (layers: Vec<LayerTopology>)
    ensures
        crate::neural_network::widths(layers@) == brain_topology(),
{
    let mut layers: Vec<LayerTopology> = Vec::new();
    layers.push(LayerTopology { neurons: CELLS });
    layers.push(LayerTopology { neurons: 2 * CELLS });
    layers.push(LayerTopology { neurons: 2 });
    proof {
        assert(crate::neural_network::widths(layers@) =~= brain_topology());
    }
    layers
}

impl Animal {
    /// An animal with the given brain, newly born at a place and facing a
    /// direction that are drawn uniformly, the place first.
    pub(crate) fn born(rng: &mut ChaCha8Rng, brain: Network) -> (animal: Animal)
        requires
            fits(brain@, brain_topology()),
        ensures
            animal@.wf(),
            animal@.brain == brain@,
            animal@.speed == SPEED_AT_BIRTH,
            animal@.satiation == 0,
    {
        let position = Point::random(rng);
        let rotation: i64 = draw_rotation(rng);
        Animal {
            position,
            rotation,
            speed: SPEED_AT_BIRTH,
            eye: Eye::default(),
            brain,
            satiation: 0,
        }
    }

    /// An animal with a random brain, newly born at a random place and
    /// facing a random direction. The brain is drawn first; every one of its
    /// genes lies between minus one and one.
    pub fn random(rng: &mut ChaCha8Rng) -> (animal: Animal)
        ensures
            animal@.wf(),
            animal@.speed == SPEED_AT_BIRTH,
            animal@.satiation == 0,
            unit_network(animal@.brain),
    {
        let layers = brain_layers();
        let brain = Network::random(rng, layers.as_slice());
        Animal::born(rng, brain)
    }

    /// Where the animal is.
    pub fn position(&self) -> (position: Point)
        ensures
            position == self@.position,
    {
        self.position
    }

    /// The direction the animal faces.
    pub fn rotation(&self) -> (rotation: i64)
        ensures
            rotation == self@.rotation,
    {
        self.rotation
    }

    /// How far the animal moves in one step.
    pub fn speed(&self) -> (speed: i64)
        ensures
            speed == self@.speed,
    {
        self.speed
    }

    /// How much the animal has eaten since its birth.
    pub fn satiation(&self) -> (satiation: usize)
        ensures
            satiation == self@.satiation,
    {
        self.satiation
    }

    /// The brain of the animal.
    pub fn brain(&self) -> (brain: &Network)
        ensures
            brain@ == self@.brain,
    {
        &self.brain
    }

    /// The eye of the animal.
    pub fn eye(&self) -> (eye: &Eye)
        ensures
            *eye == self@.eye,
    {
        &self.eye
    }

    /// Lets the animal see the foods and steer by what its brain answers.
    /// `polar` gives the length, which is never negative, and the bearing of
    /// a displacement.
    pub fn process_brain<P: Fn(Vector) -> Polar>(&mut self, foods: &[Food], polar: &P)
        requires
            old(self)@.wf(),
            measures(polar),
        ensures
            final(self)@.wf(),
            steered_by(polar, food_places(foods@), old(self)@, final(self)@),
    {
        let vision = self.eye.process_vision(self.position, self.rotation, foods, polar);
        let ghost sightings = choose|sightings: Seq<Polar>|
            #[trigger] sighted(polar, self@.position, food_places(foods@), sightings) && vision@
                == self.eye.vision(self.rotation, sightings);
        let answers = self.brain.propagate(vision);
        let faster: i64 = limit(answers[0], -SPEED_ACCELERATION, SPEED_ACCELERATION);
        let turning: i64 = limit(answers[1], -ROTATION_ACCELERATION, ROTATION_ACCELERATION);
        self.speed = limit(sum(self.speed, faster), SPEED_MIN, SPEED_MAX);
        self.rotation = turn(self.rotation, turning);
        proof {
            assert(sighted(polar, old(self)@.position, food_places(foods@), sightings));
            assert(self@ == steered(old(self)@, sightings));
        }
    }

    /// Moves the animal by one stride. `heading` gives the displacement that
    /// has a given length and bearing.
    pub fn process_movement<H: Fn(Polar) -> Vector>(&mut self, heading: &H)
        requires
            old(self)@.wf(),
            forall|stride: Polar| call_requires(*heading, (stride,)),
        ensures
            final(self)@.wf(),
            moved_by(heading, old(self)@, final(self)@),
    {
        let stride = Polar { distance: self.speed, bearing: self.rotation };
        let step = heading(stride);
        self.position = self.position.carry(step);
        proof {
            assert(call_ensures(*heading, (old(self)@.stride(),), step));
            assert(self@ == advanced(old(self)@, step));
        }
    }

    /// Lets the animal eat once.
    pub(crate) fn feed(&mut self)
        ensures
            final(self)@ == old(self)@.fed(),
    {
        if self.satiation < usize::MAX {
            self.satiation += 1;
        }
    }
}

} // verus!
