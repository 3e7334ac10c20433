use tetromino::coords::Coords;
use tetromino::figure::{catalog, next_random, pick, Figure};

fn c(dx: i8, dy: i8) -> Coords {
    Coords { dx, dy }
}

fn fig(color: &str, points: Vec<Coords>) -> Figure {
    Figure { color: color.to_string(), points }
}

#[test]
fn catalog_has_seven_colors() {
    let figures = catalog();
    let colors: Vec<&str> = figures.iter().map(|f| f.color.as_str()).collect();
    assert_eq!(colors, vec!["blue", "red", "orange", "green", "gray", "lightblue", "yellow"]);
    for f in figures.iter() {
        assert_eq!(f.points.len(), 4);
    }
    assert_eq!(figures[1].points, vec![c(-1, -1), c(1, -1), c(1, 1), c(1, 3)]);
    assert_eq!(figures[3].points, vec![c(-2, 0), c(0, 0), c(2, 0), c(4, 0)]);
}

#[test]
fn figure_rotate_keeps_color_and_order() {
    let red = &catalog()[1];
    let r = red.rotate();
    assert_eq!(r.color, "red");
    assert_eq!(r.points, vec![c(1, -1), c(1, 1), c(-1, 1), c(-3, 1)]);
    assert_eq!(red.points, vec![c(-1, -1), c(1, -1), c(1, 1), c(1, 3)]);
}

#[test]
fn figure_rotate_four_times_is_identity() {
    for f in catalog().iter() {
        let r = f.rotate().rotate().rotate().rotate();
        assert_eq!(r.color, f.color);
        assert_eq!(r.points, f.points);
    }
}

#[test]
fn origin_is_componentwise_minimum() {
    // gray: no single point is at (0, -2)
    let gray = &catalog()[4];
    assert_eq!(gray.get_origin(), c(0, -2));
    let f = fig("x", vec![c(3, -1), c(-2, 4), c(0, 0)]);
    assert_eq!(f.get_origin(), c(-2, -1));
}

#[test]
fn origin_of_positive_points() {
    let f = fig("x", vec![c(2, 5), c(4, 3)]);
    assert_eq!(f.get_origin(), c(2, 3));
}

#[test]
fn origin_independent_of_order() {
    let a = fig("x", vec![c(3, -1), c(-2, 4), c(0, 0), c(1, -3)]);
    let b = fig("x", vec![c(1, -3), c(0, 0), c(3, -1), c(-2, 4)]);
    assert_eq!(a.get_origin(), b.get_origin());
    assert_eq!(a.get_origin(), c(-2, -3));
}

#[test]
fn next_random_returns_a_catalog_entry() {
    let figures = catalog();
    for _ in 0..100 {
        let f = next_random(&figures);
        assert!(figures.iter().any(|g| std::ptr::eq(g, f)));
    }
}

#[test]
fn next_random_is_roughly_uniform() {
    let figures = catalog();
    let mut counts = [0usize; 7];
    let trials = 7000;
    for _ in 0..trials {
        let f = next_random(&figures);
        let i = figures.iter().position(|g| std::ptr::eq(g, f)).unwrap();
        counts[i] += 1;
    }
    for n in counts.iter() {
        assert!(*n > 700 && *n < 1300, "counts {:?}", counts);
    }
}

#[test]
fn pick_returns_the_entry_at_the_index() {
    let figures = catalog();
    for i in 0..7 {
        let f = pick(&figures, i);
        assert!(std::ptr::eq(f, &figures[i]));
        assert_eq!(f.color, figures[i].color);
    }
    assert_eq!(pick(&figures, 5).color, "lightblue");
}
