use tetromino::coords::Coords;
use tetromino::field::{Field, COLS, ROWS};
use tetromino::figure::{catalog, Figure};

fn c(dx: i8, dy: i8) -> Coords {
    Coords { dx, dy }
}

fn occupied(field: &Field) -> Vec<(u8, u8, String)> {
    let mut v = Vec::new();
    for y in 0..ROWS {
        for x in 0..COLS {
            if let Some(color) = field.get(x, y) {
                v.push((x, y, color));
            }
        }
    }
    v
}

#[test]
fn new_field_is_empty() {
    let field = Field::new();
    assert!(occupied(&field).is_empty());
    assert_eq!(field.get(0, 0), None);
    assert_eq!(field.get(COLS - 1, ROWS - 1), None);
}

#[test]
fn rotated_red_cells_at_5_7() {
    let red = &catalog()[1];
    let fig = red.rotate().rotate().rotate();
    assert_eq!(fig.points, vec![c(-1, 1), c(-1, -1), c(1, -1), c(3, -1)]);
    assert_eq!(fig.get_origin(), c(-1, -1));
    let cells = Field::coords(&c(5, 7), &fig);
    assert_eq!(cells, vec![c(5, 8), c(5, 7), c(6, 7), c(7, 7)]);
    let field = Field::new();
    assert!(field.can_put(&c(5, 7), &fig));
}

#[test]
fn coords_halves_offsets_from_origin() {
    let green = &catalog()[3];
    assert_eq!(Field::coords(&c(0, 0), green), vec![c(0, 0), c(1, 0), c(2, 0), c(3, 0)]);
    let gray = &catalog()[4];
    assert_eq!(Field::coords(&c(2, 3), gray), vec![c(2, 5), c(2, 4), c(3, 4), c(3, 3)]);
}

#[test]
fn empty_field_accepts_every_figure_with_margin() {
    let field = Field::new();
    for f in catalog().iter() {
        for r in 0..4 {
            let mut g = Figure { color: f.color.clone(), points: f.points.clone() };
            for _ in 0..r {
                g = g.rotate();
            }
            for y in 0..(ROWS as i8 - 3) {
                for x in 0..(COLS as i8 - 3) {
                    assert!(field.can_put(&c(x, y), &g));
                }
            }
        }
    }
}

#[test]
fn can_put_rejects_off_grid() {
    let field = Field::new();
    let green = &catalog()[3];
    // cells run from the anchor to three columns to its right
    assert!(field.can_put(&c(6, 0), green));
    assert!(!field.can_put(&c(7, 0), green));
    assert!(!field.can_put(&c(-1, 0), green));
    assert!(!field.can_put(&c(0, -1), green));
    assert!(field.can_put(&c(0, 19), green));
    assert!(!field.can_put(&c(0, 20), green));
    assert!(!field.can_put(&c(100, 100), green));
    assert!(!field.can_put(&c(-100, -100), green));
}

#[test]
fn put_writes_color_then_self_collides() {
    let figures = catalog();
    for f in figures.iter() {
        let mut field = Field::new();
        let at = c(4, 10);
        assert!(field.can_put(&at, f));
        field.put(&at, f);
        let cells = Field::coords(&at, f);
        for p in cells.iter() {
            assert_eq!(field.get(p.dx as u8, p.dy as u8), Some(f.color.clone()));
        }
        assert!(!field.can_put(&at, f));
        assert_eq!(occupied(&field).len(), 4);
    }
}

#[test]
fn occupied_cell_blocks_placement() {
    let mut field = Field::new();
    let blue = &catalog()[0];
    field.put(&c(0, 0), blue);
    let green = &catalog()[3];
    assert!(!field.can_put(&c(1, 1), green));
    assert!(field.can_put(&c(2, 1), green));
    assert!(field.can_put(&c(0, 2), green));
}

#[test]
fn can_fall_matches_can_put_one_row_below() {
    let mut field = Field::new();
    let figures = catalog();
    field.put(&c(3, 10), &figures[2]);
    for f in figures.iter() {
        for y in -2..(ROWS as i8 + 2) {
            for x in -2..(COLS as i8 + 2) {
                assert_eq!(field.can_fall(&c(x, y), f), field.can_put(&c(x, y + 1), f));
            }
        }
    }
}

#[test]
fn can_fall_stops_at_bottom_and_on_blocks() {
    let mut field = Field::new();
    let blue = &catalog()[0];
    assert!(field.can_fall(&c(0, 17), blue));
    assert!(!field.can_fall(&c(0, 18), blue));
    field.put(&c(0, 10), blue);
    assert!(field.can_fall(&c(0, 7), blue));
    assert!(!field.can_fall(&c(0, 8), blue));
}

#[test]
fn second_placement_keeps_first() {
    let figures = catalog();
    for f in figures.iter() {
        let mut field = Field::new();
        field.put(&c(3, 6), &figures[2]);
        let first = occupied(&field);
        assert_eq!(
            first,
            vec![
                (3, 6, "orange".to_string()),
                (4, 6, "orange".to_string()),
                (3, 7, "orange".to_string()),
                (3, 8, "orange".to_string()),
            ]
        );
        assert!(field.can_put(&c(5, 6), f));
        field.put(&c(5, 6), f);
        for (x, y, color) in first.iter() {
            assert_eq!(field.get(*x, *y), Some(color.clone()));
        }
        assert_eq!(occupied(&field).len(), 8);
    }
}

#[test]
fn put_overwrites_without_checking() {
    let mut field = Field::new();
    let figures = catalog();
    field.put(&c(0, 0), &figures[0]);
    field.put(&c(1, 0), &figures[3]);
    assert_eq!(field.get(0, 0), Some("blue".to_string()));
    assert_eq!(field.get(1, 0), Some("green".to_string()));
    assert_eq!(field.get(0, 1), Some("blue".to_string()));
    assert_eq!(field.get(1, 1), Some("blue".to_string()));
    assert_eq!(field.get(4, 0), Some("green".to_string()));
}
