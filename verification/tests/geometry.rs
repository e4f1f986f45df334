use laundry_machine_mqtt::config::{Coord, MarkerType, Point, MAX_DIGITS};
use laundry_machine_mqtt::units::{floor_div, isqrt, UNIT};

fn row(
    start: (i64, i64),
    end: (i64, i64),
    bottom: (i64, i64),
    digits: usize,
    spacing: i64,
) -> MarkerType {
    MarkerType::SevenSegment {
        start: Coord { x: start.0, y: start.1 },
        end: Coord { x: end.0, y: end.1 },
        bottom: Coord { x: bottom.0, y: bottom.1 },
        digits,
        spacing,
        size: 10_000,
    }
}

fn positions(marker: &MarkerType) -> Vec<(i64, i64)> {
    assert!(marker.is_well_formed());
    marker.get_points().iter().map(|p| (p.pos.x, p.pos.y)).collect()
}

#[test]
fn lamp_is_sampled_at_its_position() {
    let marker = MarkerType::Point { pos: Coord { x: 250_000, y: 750_000 }, size: 42 };
    assert_eq!(
        marker.get_points(),
        vec![Point { pos: Coord { x: 250_000, y: 750_000 }, size: 42 }]
    );
}

#[test]
fn three_digits_give_twenty_one_points_in_label_order() {
    let marker = row((100_000, 500_000), (700_000, 500_000), (100_000, 600_000), 3, 30_000);
    let points = marker.get_points();
    assert_eq!(points.len(), 21);
    assert!(points.iter().all(|p| p.size == 10_000));
    let at: Vec<(i64, i64)> = points.iter().map(|p| (p.pos.x, p.pos.y)).collect();
    // Each cell is 180000 long; with the gap the cells start 210000 apart.
    assert_eq!(
        at[0..7],
        [
            (190_000, 400_000), // a: above the middle
            (280_000, 450_000), // b: upper right
            (280_000, 550_000), // c: lower right
            (190_000, 600_000), // d: below the middle
            (100_000, 550_000), // e: lower left
            (100_000, 450_000), // f: upper left
            (190_000, 500_000), // g: the middle
        ]
    );
    assert_eq!(
        at[7..14],
        [
            (400_000, 400_000),
            (490_000, 450_000),
            (490_000, 550_000),
            (400_000, 600_000),
            (310_000, 550_000),
            (310_000, 450_000),
            (400_000, 500_000),
        ]
    );
    assert_eq!(
        at[14..21],
        [
            (610_000, 400_000),
            (700_000, 450_000),
            (700_000, 550_000),
            (610_000, 600_000),
            (520_000, 550_000),
            (520_000, 450_000),
            (610_000, 500_000),
        ]
    );
}

#[test]
fn every_digit_count_gives_seven_points_per_cell() {
    for digits in 1..=MAX_DIGITS {
        let marker = row((0, 0), (UNIT, UNIT), (0, UNIT), digits, 1_000);
        assert_eq!(marker.get_points().len(), 7 * digits);
    }
}

#[test]
fn slanted_row() {
    let marker = row((0, 0), (300_000, 400_000), (0, 100_001), 2, 50_000);
    assert_eq!(
        positions(&marker),
        vec![
            (67_500, -10_001),
            (135_000, 130_000),
            (135_000, 230_000),
            (67_500, 190_001),
            (0, 50_000),
            (0, -50_000),
            (67_500, 90_000),
            (232_500, 209_999),
            (300_000, 350_000),
            (300_000, 450_000),
            (232_500, 410_001),
            (165_000, 270_000),
            (165_000, 170_000),
            (232_500, 310_000),
        ]
    );
}

#[test]
fn row_that_runs_backwards_with_overlapping_cells() {
    let marker = row((900_000, 900_000), (200_000, 100_000), (850_000, 950_000), 2, -20_000);
    assert_eq!(
        positions(&marker),
        vec![
            (771_707, 646_237),
            (568_414, 467_474),
            (518_414, 517_474),
            (671_707, 746_237),
            (875_000, 925_000),
            (925_000, 875_000),
            (721_707, 696_237),
            (428_292, 253_762),
            (225_000, 75_000),
            (175_000, 125_000),
            (328_292, 353_762),
            (531_585, 532_525),
            (581_585, 482_525),
            (378_292, 303_762),
        ]
    );
}

#[test]
fn axis_length_is_rounded_down() {
    // The axis is 141421.35 units long: a single cell of 141421 units ends
    // at the end of the axis.
    let marker = row((0, 0), (100_000, 100_000), (7, 3), 1, 0);
    assert_eq!(
        positions(&marker),
        vec![
            (49_993, 49_997),
            (99_997, 99_999),
            (100_003, 100_001),
            (50_007, 50_003),
            (3, 1),
            (-3, -1),
            (50_000, 50_000),
        ]
    );
}

#[test]
fn axis_without_length_puts_every_cell_at_the_start() {
    let marker = row((500_000, 500_000), (500_000, 500_000), (500_000, 600_000), 2, 10_000);
    let cell = vec![
        (500_000, 400_000),
        (500_000, 450_000),
        (500_000, 550_000),
        (500_000, 600_000),
        (500_000, 550_000),
        (500_000, 450_000),
        (500_000, 500_000),
    ];
    let mut both = cell.clone();
    both.extend(cell);
    assert_eq!(positions(&marker), both);
}

#[test]
fn gaps_longer_than_the_axis_give_cells_of_negative_length() {
    let marker = row((100_000, 100_000), (200_000, 100_000), (100_000, 150_000), 4, 40_000);
    let at = positions(&marker);
    assert_eq!(at.len(), 28);
    // Every cell is -5000 long: it ends before it starts.
    assert_eq!(at[4], (100_000, 125_000));
    assert_eq!(at[1], (95_000, 75_000));
    assert_eq!(at[6], (97_500, 100_000));
    assert_eq!(at[7 + 4], (135_000, 125_000));
    assert_eq!(at[21 + 1], (200_000, 75_000));
    assert_eq!(at[21 + 6], (202_500, 100_000));
}

#[test]
fn well_formed_markers_lie_on_the_image() {
    let good = row((0, 0), (UNIT, UNIT), (0, UNIT), 18, UNIT);
    assert!(good.is_well_formed());
    assert!(row((0, 0), (UNIT, UNIT), (0, UNIT), 1, -UNIT).is_well_formed());
    assert!(!row((0, 0), (UNIT, UNIT), (0, UNIT), 0, 0).is_well_formed());
    assert!(!row((0, 0), (UNIT, UNIT), (0, UNIT), 19, 0).is_well_formed());
    assert!(!row((-1, 0), (UNIT, UNIT), (0, UNIT), 1, 0).is_well_formed());
    assert!(!row((0, 0), (UNIT, UNIT + 1), (0, UNIT), 1, 0).is_well_formed());
    assert!(!row((0, 0), (UNIT, UNIT), (UNIT + 1, UNIT), 1, 0).is_well_formed());
    assert!(!row((0, 0), (UNIT, UNIT), (0, UNIT), 1, UNIT + 1).is_well_formed());
    assert!(!row((0, 0), (UNIT, UNIT), (0, UNIT), 1, -UNIT - 1).is_well_formed());
    assert!(MarkerType::Point { pos: Coord { x: 0, y: UNIT }, size: -5 }.is_well_formed());
    assert!(!MarkerType::Point { pos: Coord { x: 0, y: UNIT + 1 }, size: 0 }.is_well_formed());
    assert!(Coord { x: UNIT, y: 0 }.is_in_unit_square());
    assert!(!Coord { x: UNIT, y: -1 }.is_in_unit_square());
}

#[test]
fn square_roots_are_rounded_down() {
    assert_eq!(isqrt(0), 0);
    assert_eq!(isqrt(1), 1);
    assert_eq!(isqrt(3), 1);
    assert_eq!(isqrt(4), 2);
    assert_eq!(isqrt(24), 4);
    assert_eq!(isqrt(25), 5);
    assert_eq!(isqrt(20_000_000_000), 141_421);
    assert_eq!(isqrt(2_000_000_000_000), 1_414_213);
    assert_eq!(isqrt(u64::MAX), 4_294_967_295);
    assert_eq!(isqrt(4_294_967_295 * 4_294_967_295), 4_294_967_295);
    assert_eq!(isqrt(4_294_967_295 * 4_294_967_295 - 1), 4_294_967_294);
}

#[test]
fn floor_division_rounds_towards_minus_infinity() {
    assert_eq!(floor_div(7, 2), 3);
    assert_eq!(floor_div(-7, 2), -4);
    assert_eq!(floor_div(-8, 2), -4);
    assert_eq!(floor_div(-1, 1_000), -1);
    assert_eq!(floor_div(0, 5), 0);
    assert_eq!(floor_div(-5, 1), -5);
    assert_eq!(floor_div(i128::MAX, 1), i128::MAX);
    assert_eq!(floor_div(i128::MIN + 1, i128::MAX), -1);
}
