use simulation::eye::Eye;
use simulation::fixed::{FRAC_PI_2, PI, SCALE, TAU};
use simulation::food::Food;
use simulation::geometry::{Point, Polar, Vector};

const DEFAULT_TEST_EYE_CELLS: usize = 13;

/// The fixed-point value, in millionths, nearest to a real number.
fn fixed(real: f64) -> i64 {
    (real * 1_000_000.0).round() as i64
}

/// Length and bearing of a displacement, computed in floating point.
fn polar(step: Vector) -> Polar {
    let x = step.x as f64 / 1e6;
    let y = step.y as f64 / 1e6;
    Polar { distance: fixed(x.hypot(y)), bearing: fixed(y.atan2(x)) }
}

fn food(x: f64, y: f64) -> Food {
    Food::new(Point { x: fixed(x), y: fixed(y) })
}

struct TestCase {
    foods: Vec<Food>,
    fov_range: f64,
    fov_angle: i64,
    x: f64,
    y: f64,
    rot: i64,
    expected_vision: &'static str,
}

impl TestCase {
    fn run(self) {
        let eye = Eye::new(fixed(self.fov_range), self.fov_angle, DEFAULT_TEST_EYE_CELLS);

        let actual_vision = eye.process_vision(
            Point { x: fixed(self.x), y: fixed(self.y) },
            self.rot,
            &self.foods,
            &polar,
        );
        let actual_vision: Vec<_> = actual_vision
            .into_iter()
            .map(|cell| {
                if cell >= 700_000 {
                    // food is fairly close
                    "#"
                } else if cell >= 300_000 {
                    // food is somewhat further
                    "+"
                } else if cell > 0 {
                    // food is pretty far away
                    "."
                } else {
                    // no food in sight
                    " "
                }
            })
            .collect();
        let actual_vision = actual_vision.join("");

        assert_eq!(actual_vision, self.expected_vision);
    }
}

fn fov_ranges(fov_range: f64, expected_vision: &'static str) {
    TestCase {
        foods: vec![food(1.0, 0.5)],
        fov_angle: FRAC_PI_2,
        x: 0.5,
        y: 0.5,
        rot: 0,
        fov_range,
        expected_vision,
    }
    .run()
}

#[test]
fn different_fov_ranges_1_0() {
    fov_ranges(1.0, "      +      ");
}

#[test]
fn different_fov_ranges_0_9() {
    fov_ranges(0.9, "      +      ");
}

#[test]
fn different_fov_ranges_0_8() {
    fov_ranges(0.8, "      +      ");
}

#[test]
fn different_fov_ranges_0_7() {
    fov_ranges(0.7, "      .      ");
}

#[test]
fn different_fov_ranges_0_6() {
    fov_ranges(0.6, "      .      ");
}

#[test]
fn different_fov_ranges_0_5() {
    fov_ranges(0.5, "             ");
}

#[test]
fn different_fov_ranges_0_4_and_less() {
    fov_ranges(0.4, "             ");
    fov_ranges(0.3, "             ");
    fov_ranges(0.2, "             ");
    fov_ranges(0.1, "             ");
}

fn rotations(rot: f64, expected_vision: &'static str) {
    TestCase {
        foods: vec![food(0.5, 1.0)],
        fov_range: 1.0,
        fov_angle: TAU,
        x: 0.5,
        y: 0.5,
        rot: fixed(rot * std::f64::consts::PI),
        expected_vision,
    }
    .run()
}

#[test]
fn different_rotations_first_turn() {
    rotations(0.00, "         +   ");
    rotations(0.25, "        +    ");
    rotations(0.50, "      +      ");
    rotations(0.75, "    +        ");
    rotations(1.00, "   +         ");
    rotations(1.25, " +           ");
    rotations(1.50, "            +");
    rotations(1.75, "           + ");
}

#[test]
fn different_rotations_second_turn() {
    rotations(2.00, "         +   ");
    rotations(2.25, "        +    ");
    rotations(2.50, "      +      ");
}

#[test]
fn food_ahead_at_mid_range_fills_the_central_cell() {
    let eye = Eye::new(SCALE, FRAC_PI_2, 13);
    let cells = eye.process_vision(
        Point { x: 500_000, y: 500_000 },
        0,
        &[food(1.0, 0.5)],
        &polar,
    );
    let mut expected = vec![0; 13];
    expected[6] = 500_000;
    assert_eq!(cells, expected);
}

#[test]
fn vision_has_one_reading_for_each_cell() {
    for cells in [1, 2, 9, 40] {
        let eye = Eye::new(SCALE, PI, cells);
        assert_eq!(eye.cells(), cells);
        assert_eq!(eye.process_sightings(0, &[]), vec![0; cells]);
        let seen =
            eye.process_sightings(0, &[Polar { distance: 10, bearing: 0 }; 5]);
        assert_eq!(seen.len(), cells);
        assert!(seen.iter().all(|cell| *cell >= 0));
    }
}

#[test]
fn food_at_the_eye_gives_one_to_one_cell() {
    let eye = Eye::new(250_000, PI, 9);
    let cells = eye.process_sightings(0, &[Polar { distance: 0, bearing: 0 }]);
    assert_eq!(cells.iter().filter(|cell| **cell != 0).count(), 1);
    assert_eq!(cells[4], SCALE);
    // Whatever bearing is told of it, as long as it is in the field of view.
    let cells = eye.process_sightings(0, &[Polar { distance: 0, bearing: -PI / 2 }]);
    assert_eq!(cells.iter().filter(|cell| **cell != 0).count(), 1);
    assert_eq!(cells[0], SCALE);
}

#[test]
fn food_at_the_range_or_beyond_gives_nothing() {
    let eye = Eye::new(250_000, PI, 9);
    assert_eq!(eye.process_sightings(0, &[Polar { distance: 250_000, bearing: 0 }]), vec![0; 9]);
    assert_eq!(eye.process_sightings(0, &[Polar { distance: 900_000, bearing: 0 }]), vec![0; 9]);
    let near = eye.process_sightings(0, &[Polar { distance: 249_999, bearing: 0 }]);
    assert_eq!(near[4], 4);
}

#[test]
fn food_outside_the_angle_gives_nothing_and_the_edges_count() {
    // half the angle is 500_000
    let eye = Eye::new(SCALE, SCALE, 4);
    let at = |bearing: i64| eye.process_sightings(0, &[Polar { distance: 500_000, bearing }]);
    assert_eq!(at(-500_001), vec![0; 4]);
    assert_eq!(at(-500_000), vec![500_000, 0, 0, 0]);
    assert_eq!(at(-250_001), vec![500_000, 0, 0, 0]);
    assert_eq!(at(-250_000), vec![0, 500_000, 0, 0]);
    assert_eq!(at(0), vec![0, 0, 500_000, 0]);
    assert_eq!(at(499_999), vec![0, 0, 0, 500_000]);
    // The upper edge belongs to the last cell.
    assert_eq!(at(500_000), vec![0, 0, 0, 500_000]);
    assert_eq!(at(500_001), vec![0; 4]);
}

#[test]
fn energies_in_one_cell_add_up_uncapped() {
    let eye = Eye::new(SCALE, PI, 3);
    let cells = eye.process_sightings(
        0,
        &[
            Polar { distance: 0, bearing: 0 },
            Polar { distance: 250_000, bearing: 10 },
            Polar { distance: 500_000, bearing: -10 },
            Polar { distance: 100_000, bearing: PI / 2 },
        ],
    );
    assert_eq!(cells, vec![0, 1_000_000 + 750_000 + 500_000, 900_000]);
}

#[test]
fn the_rotation_of_the_eye_is_taken_off_the_bearing() {
    let eye = Eye::new(SCALE, PI, 3);
    let sighting = [Polar { distance: 500_000, bearing: PI }];
    assert_eq!(eye.process_sightings(0, &sighting), vec![0; 3]);
    assert_eq!(eye.process_sightings(PI, &sighting), vec![0, 500_000, 0]);
    assert_eq!(eye.process_sightings(-PI, &sighting), vec![0, 500_000, 0]);
    assert_eq!(eye.process_sightings(PI - 1_500_000, &sighting), vec![0, 0, 500_000]);
}

#[test]
fn the_eye_of_an_animal() {
    let eye = Eye::default();
    assert_eq!(eye.fov_range, 250_000);
    assert_eq!(eye.fov_angle, fixed(std::f64::consts::PI + std::f64::consts::FRAC_PI_4));
    assert_eq!(eye.cells(), 9);
}

#[test]
fn vision_asks_for_the_displacement_to_each_food() {
    let eye = Eye::new(SCALE, TAU, 4);
    // A `polar` that tells the first coordinate as the distance, and no bearing.
    let told = |step: Vector| Polar { distance: step.x, bearing: 0 };
    let cells = eye.process_vision(
        Point { x: 100_000, y: 0 },
        0,
        &[food(0.35, 0.9), food(0.6, 0.1)],
        &told,
    );
    assert_eq!(cells, vec![0, 0, 750_000 + 500_000, 0]);
}
