use tetromino::coords::Coords;

fn c(dx: i8, dy: i8) -> Coords {
    Coords { dx, dy }
}

#[test]
fn rotate_quarter_turn() {
    assert_eq!(c(1, 2).rotate(), c(-2, 1));
    assert_eq!(c(-3, 0).rotate(), c(0, -3));
}

#[test]
fn rotate_four_times_is_identity() {
    for dx in -5i8..=5 {
        for dy in -5i8..=5 {
            let v = c(dx, dy);
            assert_eq!(v.rotate().rotate().rotate().rotate(), v);
        }
    }
}

#[test]
fn rotate_twice_negates() {
    for dx in -5i8..=5 {
        for dy in -5i8..=5 {
            assert_eq!(c(dx, dy).rotate().rotate(), c(-dx, -dy));
        }
    }
}

#[test]
fn add_and_sub_are_componentwise() {
    assert_eq!(c(1, -2).add(&c(3, 4)), c(4, 2));
    assert_eq!(c(1, -2).sub(&c(3, 4)), c(-2, -6));
}

#[test]
fn div_halves_both_by_two() {
    assert_eq!(c(4, 2).div(2), c(2, 1));
    assert_eq!(c(5, 3).div(2), c(2, 1));
}

#[test]
fn div_rounds_toward_zero() {
    assert_eq!(c(-3, -3).div(2), c(-1, -1));
    assert_eq!(c(7, 0).div(-2), c(-3, 0));
    assert_eq!(c(-7, 0).div(-2), c(3, 0));
    assert_eq!(c(-128, 0).div(-128), c(1, 0));
    assert_eq!(c(100, 0).div(-128), c(0, 0));
}

#[test]
fn div_divisor_only_affects_dx() {
    assert_eq!(c(9, 9).div(3), c(3, 4));
    assert_eq!(c(9, -9).div(1), c(9, -4));
}
