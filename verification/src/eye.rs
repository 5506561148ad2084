//! The eye: a fan of cells, each of which adds up the energy of the food
//! that it sees.

use crate::fixed::{
    clamped, difference, quotient, sum, wrap_upto, wrapped_upto, FRAC_PI_4, PI, SCALE,
};
use crate::food::{food_places, Food};
use crate::geometry::{offset, Point, Polar, Vector};
use vstd::prelude::*;

verus! {

/// An eye: how far it sees, how wide it sees, and how many cells it has.
#[derive(Debug)]
pub struct Eye {
    pub fov_range: i64,
    pub fov_angle: i64,
    pub cells: usize,
}

/// How far the eye of an animal sees.
pub const FOV_RANGE: i64 = 250_000;

/// How wide the eye of an animal sees.
pub const FOV_ANGLE: i64 = PI + FRAC_PI_4;

/// The number of cells of the eye of an animal.
pub const CELLS: usize = 9;

/// `sightings` are what `polar` may answer for the displacements from
/// `position` to each of the places of the foods, in order.
pub open spec fn sighted<P: Fn(Vector) -> Polar>(
    polar: &P,
    position: Point,
    foods: Seq<Point>,
    sightings: Seq<Polar>,
) -> bool {
    &&& sightings.len() == foods.len()
    &&& forall|i: int|
        0 <= i < foods.len() ==> call_ensures(
            *polar,
            (offset(position, foods[i]),),
            #[trigger] sightings[i],
        )
}

/// `polar` answers every displacement, and never with a negative length.
pub open spec fn measures<P: Fn(Vector) -> Polar>(polar: &P) -> bool {
    &&& forall|step: Vector| call_requires(*polar, (step,))
    &&& forall|step: Vector, answer: Polar|
        call_ensures(*polar, (step,), answer) ==> answer.distance >= 0
}

/// No sighting has a negative distance.
pub open spec fn no_negative_distance(sightings: Seq<Polar>) -> bool {
    forall|i: int| 0 <= i < sightings.len() ==> (#[trigger] sightings[i]).distance >= 0
}

impl Eye {
    /// Range, angle and number of cells are positive.
    pub open spec fn wf(&self) -> bool {
        self.fov_range > 0 && self.fov_angle > 0 && self.cells > 0
    }

    /// Half the angle of the field of view.
    pub open spec fn half_angle(&self) -> int {
        self.fov_angle as int / 2
    }

    /// The angle from the direction of the eye to the sighting, above minus
    /// half a turn and up to half a turn.
    pub open spec fn angle_to(&self, rotation: i64, sighting: Polar) -> int {
        wrapped_upto(clamped(sighting.bearing - rotation) as int, -PI as int, PI as int)
    }

    /// The eye sees the sighting: it is nearer than the range and within the
    /// field of view, whose edges count.
    pub open spec fn sees(&self, rotation: i64, sighting: Polar) -> bool {
        &&& sighting.distance < self.fov_range
        &&& -self.half_angle() <= self.angle_to(rotation, sighting) <= self.half_angle()
    }

    /// The cell that a sighting falls into: the field of view is cut into
    /// cells of the same width, counted from its lower edge, and the upper
    /// edge belongs to the last cell.
    pub open spec fn cell_of(&self, rotation: i64, sighting: Polar) -> int {
        let place = (self.angle_to(rotation, sighting) + self.half_angle()) * self.cells
            / self.fov_angle as int;
        if place >= self.cells {
            self.cells - 1
        } else {
            place
        }
    }

    /// The energy of a sighting: the share of the range that it leaves, one
    /// at the eye itself and falling to zero at the range.
    pub open spec fn energy_of(&self, sighting: Polar) -> i64 {
        clamped(clamped(self.fov_range - sighting.distance) * SCALE as int / self.fov_range as int)
    }

    /// What the cells hold after one more sighting.
    pub open spec fn glimpse(&self, cells: Seq<i64>, rotation: i64, sighting: Polar) -> Seq<i64> {
        if self.sees(rotation, sighting) {
            let cell = self.cell_of(rotation, sighting);
            cells.update(cell, clamped(cells[cell] + self.energy_of(sighting)))
        } else {
            cells
        }
    }

    /// What the eye makes of the sightings: each cell holds the sum of the
    /// energies of the sightings that fall into it, saturating.
    pub open spec fn vision(&self, rotation: i64, sightings: Seq<Polar>) -> Seq<i64>
        decreases sightings.len(),
    {
        if sightings.len() == 0 {
            Seq::new(self.cells as nat, |i: int| 0i64)
        } else {
            self.glimpse(self.vision(rotation, sightings.drop_last()), rotation, sightings.last())
        }
    }

    /// The eye with the given range, angle and number of cells.
    pub fn new(fov_range: i64, fov_angle: i64, cells: usize) -> (eye: Eye)
        requires
            fov_range > 0,
            fov_angle > 0,
            cells > 0,
        ensures
            eye.wf(),
            eye.fov_range == fov_range,
            eye.fov_angle == fov_angle,
            eye.cells == cells,
    {
        Eye { fov_range, fov_angle, cells }
    }

    /// The number of cells.
    pub fn cells(&self) -> (cells: usize)
        ensures
            cells == self.cells,
    {
        self.cells
    }

    /// What the eye, looking in the direction `rotation`, makes of the
    /// sightings, none of which has a negative distance.
    pub fn process_sightings(&self, rotation: i64, sightings: &[Polar]) -> (cells: Vec<i64>)
        requires
            self.wf(),
            no_negative_distance(sightings@),
        ensures
            cells@ == self.vision(rotation, sightings@),
            cells@.len() == self.cells,
            forall|k: int| 0 <= k < cells@.len() ==> #[trigger] cells@[k] >= 0,
    {
        let mut cells: Vec<i64> = Vec::new();
        let mut k: usize = 0;
        while k < self.cells
            invariant
                k <= self.cells,
                cells@.len() == k,
                forall|n: int| 0 <= n < k ==> #[trigger] cells@[n] == 0,
            decreases self.cells - k,
        {
            cells.push(0);
            k += 1;
        }
        proof {
            assert(cells@ =~= self.vision(rotation, sightings@.take(0)));
        }
        let half: i64 = self.fov_angle / 2;
        let count: usize = sightings.len();
        let mut i: usize = 0;
        while i < count
            invariant
                i <= count,
                count == sightings@.len(),
                self.wf(),
                half == self.half_angle(),
                cells@.len() == self.cells,
                cells@ == self.vision(rotation, sightings@.take(i as int)),
            decreases count - i,
        {
            let sighting: Polar = sightings[i];
            proof {
                assert(sightings@.take(i + 1).drop_last() =~= sightings@.take(i as int));
                assert(sightings@.take(i + 1).last() == sighting);
            }
            let angle: i64 = wrap_upto(difference(sighting.bearing, rotation), -PI, PI);
            if sighting.distance < self.fov_range && -half <= angle && angle <= half {
                let shifted: u128 = (angle + half) as u128;
                proof {
                    assert(shifted * self.cells <= 0x8000_0000_0000_0000 * 0x1_0000_0000_0000_0000)
                        by (nonlinear_arith)
                        requires
                            0 <= shifted <= 0x8000_0000_0000_0000,
                            0 <= self.cells <= 0x1_0000_0000_0000_0000,
                    ;
                }
                let place: u128 = shifted * (self.cells as u128) / (self.fov_angle as u128);
                let cell: usize = if place >= self.cells as u128 {
                    self.cells - 1
                } else {
                    place as usize
                };
                let energy: i64 = quotient(
                    difference(self.fov_range, sighting.distance),
                    self.fov_range,
                );
                let held: i64 = cells[cell];
                cells[cell] = sum(held, energy);
            }
            i += 1;
        }
        proof {
            assert(sightings@.take(i as int) =~= sightings@);
            self.lemma_vision_shape(rotation, sightings@);
        }
        cells
    }

    /// What the eye of an animal at `position`, looking in the direction
    /// `rotation`, makes of the foods. `polar` gives the length, which is
    /// never negative, and the bearing of a displacement.
    pub fn process_vision<P: Fn(Vector) -> Polar>(
        &self,
        position: Point,
        rotation: i64,
        foods: &[Food],
        polar: &P,
    ) -> (cells: Vec<i64>)
        requires
            self.wf(),
            measures(polar),
        ensures
            exists|sightings: Seq<Polar>|
                #[trigger] sighted(polar, position, food_places(foods@), sightings) && cells@
                    == self.vision(rotation, sightings),
            cells@.len() == self.cells,
            forall|k: int| 0 <= k < cells@.len() ==> #[trigger] cells@[k] >= 0,
    {
        let mut sightings: Vec<Polar> = Vec::new();
        let count: usize = foods.len();
        let mut i: usize = 0;
        while i < count
            invariant
                i <= count,
                count == foods@.len(),
                sightings@.len() == i,
                measures(polar),
                no_negative_distance(sightings@),
                forall|n: int|
                    0 <= n < i ==> call_ensures(
                        *polar,
                        (offset(position, foods@[n]@),),
                        #[trigger] sightings@[n],
                    ),
            decreases count - i,
        {
            let step = position.offset_to(foods[i].position());
            let sighting = polar(step);
            sightings.push(sighting);
            i += 1;
        }
        let cells = self.process_sightings(rotation, sightings.as_slice());
        proof {
            assert(sighted(polar, position, food_places(foods@), sightings@));
        }
        cells
    }

    /// The eye has one reading for each cell, and none is negative.
    pub proof fn lemma_vision_shape(&self, rotation: i64, sightings: Seq<Polar>)
        requires
            self.wf(),
            no_negative_distance(sightings),
        ensures
            self.vision(rotation, sightings).len() == self.cells,
            forall|k: int|
                0 <= k < self.cells ==> #[trigger] self.vision(rotation, sightings)[k] >= 0,
        decreases sightings.len(),
    {
        if sightings.len() > 0 {
            assert(no_negative_distance(sightings.drop_last())) by {
                assert forall|i: int| 0 <= i < sightings.drop_last().len() implies (
                #[trigger] sightings.drop_last()[i]).distance >= 0 by {
                    assert(sightings.drop_last()[i] == sightings[i]);
                }
            }
            self.lemma_vision_shape(rotation, sightings.drop_last());
            let last = sightings.last();
            assert(last == sightings[sightings.len() - 1]);
            if self.sees(rotation, last) {
                self.lemma_cell_in_eye(rotation, last);
                self.lemma_energy_in_unit(last);
            }
        }
    }

    /// A sighting that the eye sees falls into one of its cells.
    pub proof fn lemma_cell_in_eye(&self, rotation: i64, sighting: Polar)
        requires
            self.wf(),
            self.sees(rotation, sighting),
        ensures
            0 <= self.cell_of(rotation, sighting) < self.cells,
    {
        let shifted = self.angle_to(rotation, sighting) + self.half_angle();
        assert(shifted * self.cells / self.fov_angle as int >= 0) by (nonlinear_arith)
            requires
                shifted >= 0,
                self.cells > 0,
                self.fov_angle > 0,
        ;
    }

    /// The energy of a sighting nearer than the range lies between zero and
    /// one, and is one at no distance.
    pub proof fn lemma_energy_in_unit(&self, sighting: Polar)
        requires
            self.wf(),
            0 <= sighting.distance < self.fov_range,
        ensures
            0 <= self.energy_of(sighting) <= SCALE,
            sighting.distance == 0 ==> self.energy_of(sighting) == SCALE,
    {
        let left = clamped(self.fov_range - sighting.distance) as int;
        let range = self.fov_range as int;
        assert(left * SCALE / range >= 0) by (nonlinear_arith)
            requires
                left >= 0,
                range > 0,
                SCALE == 1_000_000,
        ;
        assert(left * SCALE / range <= SCALE) by (nonlinear_arith)
            requires
                0 <= left <= range,
                range > 0,
                SCALE == 1_000_000,
        ;
        if sighting.distance == 0 {
            assert(range * SCALE / range == SCALE) by (nonlinear_arith)
                requires
                    range > 0,
                    SCALE == 1_000_000,
            ;
        }
    }

    /// Food at the place of the eye itself, within the field of view, adds
    /// the full energy, one, to exactly one cell and nothing to the others.
    pub proof fn lemma_food_at_eye(&self, rotation: i64, sightings: Seq<Polar>, sighting: Polar)
        requires
            self.wf(),
            sighting.distance == 0,
            -self.half_angle() <= self.angle_to(rotation, sighting) <= self.half_angle(),
        ensures
            0 <= self.cell_of(rotation, sighting) < self.cells,
            self.vision(rotation, sightings.push(sighting)) == self.vision(
                rotation,
                sightings,
            ).update(
                self.cell_of(rotation, sighting),
                clamped(
                    self.vision(rotation, sightings)[self.cell_of(rotation, sighting)] + SCALE,
                ),
            ),
    {
        self.lemma_cell_in_eye(rotation, sighting);
        self.lemma_energy_in_unit(sighting);
        assert(sightings.push(sighting).drop_last() =~= sightings);
    }

    /// Food at the range or beyond it adds nothing to any cell.
    pub proof fn lemma_food_out_of_range(
        &self,
        rotation: i64,
        sightings: Seq<Polar>,
        sighting: Polar,
    )
        requires
            sighting.distance >= self.fov_range,
        ensures
            self.vision(rotation, sightings.push(sighting)) == self.vision(rotation, sightings),
    {
        assert(sightings.push(sighting).drop_last() =~= sightings);
    }
}

impl Default for Eye {
    /// The eye of an animal.
    fn default() -> (eye: Eye)
        ensures
            eye.wf(),
            eye.fov_range == FOV_RANGE,
            eye.fov_angle == FOV_ANGLE,
            eye.cells == CELLS,
    {
        Eye::new(FOV_RANGE, FOV_ANGLE, CELLS)
    }
}

} // verus!
