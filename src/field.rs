//! The playfield: a fixed grid of cells, each empty or holding a color,
//! with the placement rules for figures.
use vstd::prelude::*;

use crate::coords::{trunc_div, Coords};
use crate::figure::{lemma_seq_max, lemma_seq_min, xs, ys, Figure};

verus! {

/// Number of rows of the grid.
pub const ROWS: u8 = 20;

/// Number of columns of the grid.
pub const COLS: u8 = 10;

/// Column of the `i`-th block of `fig` when its origin is anchored at
/// column `ax`: the offset from the origin, halved, plus the anchor.
pub open spec fn cell_x(fig: Figure, ax: int, i: int) -> int {
    (fig.points@[i].dx - fig.origin().0) / 2 + ax
}

/// Row of the `i`-th block of `fig` when its origin is anchored at row `ay`.
pub open spec fn cell_y(fig: Figure, ay: int, i: int) -> int {
    (fig.points@[i].dy - fig.origin().1) / 2 + ay
}

/// Whether `(x, y)` lies on the grid.
pub open spec fn in_grid(x: int, y: int) -> bool {
    0 <= x < COLS && 0 <= y < ROWS
}

/// Whether one of the first `n` blocks of `fig` anchored at `(ax, ay)`
/// lands on `(x, y)`.
pub open spec fn covers_first(fig: Figure, ax: int, ay: int, n: int, x: int, y: int) -> bool {
    exists|i: int| 0 <= i < n && cell_x(fig, ax, i) == x && cell_y(fig, ay, i) == y
}

/// Whether a block of `fig` anchored at `(ax, ay)` lands on `(x, y)`.
pub open spec fn covers(fig: Figure, ax: int, ay: int, x: int, y: int) -> bool {
    covers_first(fig, ax, ay, fig.points@.len() as int, x, y)
}

/// Cells of the grid have distinct positions in the row-by-row storage.
proof fn lemma_index(x: int, y: int)
    requires
        in_grid(x, y),
    ensures
        0 <= y * COLS + x < ROWS * COLS,
        forall|x2: int, y2: int|
            in_grid(x2, y2) && #[trigger] (y2 * COLS + x2) == y * COLS + x ==> x2 == x && y2 == y,
{
    assert(0 <= y * COLS + x < ROWS * COLS) by (nonlinear_arith)
        requires
            0 <= x < COLS,
            0 <= y < ROWS,
    ;
    assert forall|x2: int, y2: int|
        in_grid(x2, y2) && #[trigger] (y2 * COLS + x2) == y * COLS + x implies x2 == x && y2
        == y by {
        assert(x2 == x && y2 == y) by (nonlinear_arith)
            requires
                0 <= x < 10,
                0 <= x2 < 10,
                0 <= y,
                0 <= y2,
                y2 * 10 + x2 == y * 10 + x,
        ;
    }
}

/// Whether the placement of `fig` at `(ax, ay)` can be computed in `i8`:
/// the figure has a block, each offset from the origin and each resulting
/// cell fit in `i8`.
pub open spec fn fits(fig: Figure, ax: int, ay: int) -> bool {
    &&& fig.points@.len() > 0
    &&& forall|i: int|
        0 <= i < fig.points@.len() ==> {
            &&& #[trigger] fig.points@[i].dx - fig.origin().0 <= i8::MAX
            &&& fig.points@[i].dy - fig.origin().1 <= i8::MAX
            &&& i8::MIN <= cell_x(fig, ax, i) <= i8::MAX
            &&& i8::MIN <= cell_y(fig, ay, i) <= i8::MAX
        }
}

/// On an empty grid a figure can be put at any anchor that leaves room for
/// it: the anchor is on the grid and half the figure's span still fits to
/// its right and below it.
pub proof fn lemma_empty_field_accepts(f: Field, fig: Figure, ax: int, ay: int)
    requires
        f.wf(),
        f.is_empty(),
        fig.points@.len() > 0,
        0 <= ax,
        0 <= ay,
        ax + fig.span().0 / 2 < COLS,
        ay + fig.span().1 / 2 < ROWS,
    ensures
        f.placeable(ax, ay, fig),
{
    let pts = fig.points@;
    lemma_seq_min(xs(pts));
    lemma_seq_min(ys(pts));
    lemma_seq_max(xs(pts));
    lemma_seq_max(ys(pts));
    assert forall|i: int| 0 <= i < pts.len() implies f.free(
        #[trigger] cell_x(fig, ax, i),
        cell_y(fig, ay, i),
    ) by {
        assert(xs(pts)[i] == pts[i].dx && ys(pts)[i] == pts[i].dy);
        let (a, sa) = (pts[i].dx - fig.origin().0, fig.span().0);
        let (b, sb) = (pts[i].dy - fig.origin().1, fig.span().1);
        assert(0 <= a / 2 <= sa / 2) by (nonlinear_arith)
            requires 0 <= a <= sa;
        assert(0 <= b / 2 <= sb / 2) by (nonlinear_arith)
            requires 0 <= b <= sb;
        assert(in_grid(cell_x(fig, ax, i), cell_y(fig, ay, i)));
    }
}

/// A figure with a block off the grid cannot be put, whatever the grid holds.
pub proof fn lemma_off_grid_rejected(f: Field, fig: Figure, ax: int, ay: int, i: int)
    requires
        0 <= i < fig.points@.len(),
        !in_grid(cell_x(fig, ax, i), cell_y(fig, ay, i)),
    ensures
        !f.placeable(ax, ay, fig),
{
}

/// After a figure is put on an empty grid, each cell it covers holds its
/// color, and the figure can no longer be put at the same anchor.
pub proof fn lemma_put_occupies(f: Field, g: Field, fig: Figure, ax: int, ay: int)
    requires
        f.wf(),
        f.is_empty(),
        fig.points@.len() > 0,
        forall|i: int|
            0 <= i < fig.points@.len() ==> in_grid(
                #[trigger] cell_x(fig, ax, i),
                cell_y(fig, ay, i),
            ),
        f.put_gives(g, ax, ay, fig),
    ensures
        forall|i: int|
            0 <= i < fig.points@.len() ==> g.slot(#[trigger] cell_x(fig, ax, i), cell_y(fig, ay, i))
                == Some(fig.color@),
        !g.placeable(ax, ay, fig),
{
    assert forall|i: int| 0 <= i < fig.points@.len() implies g.slot(
        #[trigger] cell_x(fig, ax, i),
        cell_y(fig, ay, i),
    ) == Some(fig.color@) by {
        assert(in_grid(cell_x(fig, ax, i), cell_y(fig, ay, i)));
        assert(covers(fig, ax, ay, cell_x(fig, ax, i), cell_y(fig, ay, i)));
    }
    assert(!g.free(cell_x(fig, ax, 0), cell_y(fig, ay, 0)));
}

/// The grid, stored row by row.
pub struct Field {
    slots: Vec<Option<String>>,
}

impl Field {
    /// The grid has `ROWS * COLS` cells.
    pub closed spec fn wf(&self) -> bool {
        self.slots@.len() == ROWS * COLS
    }

    /// What cell `(x, y)` of the grid holds: `None` when empty, else the
    /// color. Meaningful only on the grid.
    pub closed spec fn slot(&self, x: int, y: int) -> Option<Seq<char>> {
        match self.slots@[y * COLS + x] {
            Some(c) => Some(c@),
            None => None,
        }
    }

    /// Whether no cell of the grid holds a color.
    pub open spec fn is_empty(&self) -> bool {
        forall|x: int, y: int| in_grid(x, y) ==> #[trigger] self.slot(x, y) == None::<Seq<char>>
    }

    /// Whether `(x, y)` is on the grid and empty.
    pub open spec fn free(&self, x: int, y: int) -> bool {
        in_grid(x, y) && self.slot(x, y) == None::<Seq<char>>
    }

    /// Whether every block of `fig` anchored at `(ax, ay)` lands on a free
    /// cell.
    pub open spec fn placeable(&self, ax: int, ay: int, fig: Figure) -> bool {
        forall|i: int|
            0 <= i < fig.points@.len() ==> self.free(
                #[trigger] cell_x(fig, ax, i),
                cell_y(fig, ay, i),
            )
    }

    /// `next` is `self` with the color of `fig` written into each cell that
    /// `fig` anchored at `(ax, ay)` covers, and every other cell unchanged.
    pub open spec fn put_gives(&self, next: Field, ax: int, ay: int, fig: Figure) -> bool {
        &&& next.wf()
        &&& forall|x: int, y: int|
            in_grid(x, y) ==> #[trigger] next.slot(x, y) == if covers(fig, ax, ay, x, y) {
                Some(fig.color@)
            } else {
                self.slot(x, y)
            }
    }

    /// An empty grid.
    pub fn new() -> (r: Field)
        ensures
            r.wf(),
            r.is_empty(),
    {
        let mut slots: Vec<Option<String>> = Vec::new();
        let n: usize = ROWS as usize * COLS as usize;
        while slots.len() < n
            invariant
                n == ROWS * COLS,
                slots@.len() <= n,
                forall|k: int| 0 <= k < slots@.len() ==> slots@[k] == None::<String>,
            decreases n - slots@.len(),
        {
            slots.push(None);
        }
        let r = Field { slots };
        assert forall|x: int, y: int| in_grid(x, y) implies #[trigger] r.slot(x, y) == None::<
            Seq<char>,
        > by {
            lemma_index(x, y);
        }
        r
    }

    /// The absolute cells of `figure` anchored at `at`: each point minus the
    /// figure's origin, halved, plus the anchor, in the order of the points.
    pub fn coords(at: &Coords, figure: &Figure) -> (r: Vec<Coords>)
        requires
            fits(*figure, at.dx as int, at.dy as int),
        ensures
            r@.len() == figure.points@.len(),
            forall|i: int|
                0 <= i < r@.len() ==> (#[trigger] r@[i]).dx == cell_x(*figure, at.dx as int, i)
                    && r@[i].dy == cell_y(*figure, at.dy as int, i),
    {
        let origin = figure.get_origin();
        let mut r: Vec<Coords> = Vec::new();
        let mut i: usize = 0;
        while i < figure.points.len()
            invariant
                i <= figure.points@.len(),
                fits(*figure, at.dx as int, at.dy as int),
                origin.dx == figure.origin().0,
                origin.dy == figure.origin().1,
                forall|k: int|
                    0 <= k < figure.points@.len() ==> origin.dx <= (#[trigger] figure.points@[k]).dx
                        && origin.dy <= figure.points@[k].dy,
                r@.len() == i,
                forall|k: int|
                    0 <= k < i ==> (#[trigger] r@[k]).dx == cell_x(*figure, at.dx as int, k)
                        && r@[k].dy == cell_y(*figure, at.dy as int, k),
            decreases figure.points@.len() - i,
        {
            let ghost k = i as int;
            assert(figure.points@[k].dx - figure.origin().0 <= i8::MAX);
            let point = figure.points[i];
            let d = point.sub(&origin);
            let h = d.div(2);
            let c = h.add(at);
            r.push(c);
            i += 1;
        }
        r
    }

    /// Whether `figure` anchored at `at` lands only on free cells of the
    /// grid. A block off the grid and a block on a taken cell both make it
    /// false.
    pub fn can_put(&self, at: &Coords, figure: &Figure) -> (r: bool)
        requires
            self.wf(),
            fits(*figure, at.dx as int, at.dy as int),
        ensures
            r == self.placeable(at.dx as int, at.dy as int, *figure),
    {
        let cells = Field::coords(at, figure);
        let ghost ax = at.dx as int;
        let ghost ay = at.dy as int;
        let mut i: usize = 0;
        while i < cells.len()
            invariant
                self.wf(),
                ax == at.dx,
                ay == at.dy,
                i <= cells@.len(),
                cells@.len() == figure.points@.len(),
                forall|k: int|
                    0 <= k < cells@.len() ==> (#[trigger] cells@[k]).dx == cell_x(*figure, ax, k)
                        && cells@[k].dy == cell_y(*figure, ay, k),
                forall|k: int|
                    0 <= k < i ==> self.free(#[trigger] cell_x(*figure, ax, k), cell_y(*figure, ay, k)),
            decreases cells@.len() - i,
        {
            let p = cells[i];
            let ghost k = i as int;
            assert(p.dx == cell_x(*figure, ax, k));
            if !(p.dx >= 0 && p.dy >= 0 && (p.dx as u8) < COLS && (p.dy as u8) < ROWS) {
                assert(!self.free(cell_x(*figure, ax, k), cell_y(*figure, ay, k)));
                return false;
            }
            proof {
                lemma_index(p.dx as int, p.dy as int);
            }
            let idx: usize = p.dy as usize * COLS as usize + p.dx as usize;
            if self.slots[idx].is_some() {
                assert(!self.free(cell_x(*figure, ax, k), cell_y(*figure, ay, k)));
                return false;
            }
            i += 1;
        }
        true
    }

    /// Whether `figure` can move one row down from `at`: whether it can be
    /// put at the same column, one row below.
    pub fn can_fall(&self, at: &Coords, figure: &Figure) -> (r: bool)
        requires
            self.wf(),
            at.dy < i8::MAX,
            fits(*figure, at.dx as int, at.dy + 1),
        ensures
            r == self.placeable(at.dx as int, at.dy + 1, *figure),
    {
        self.can_put(&Coords { dx: at.dx, dy: at.dy + 1 }, figure)
    }

    /// Writes the color of `figure` into every cell that it covers when
    /// anchored at `at`, whatever those cells held. Nothing is checked
    /// beyond the grid's bounds: callers test `can_put` first where an
    /// overlap matters.
    pub fn put(&mut self, at: &Coords, figure: &Figure)
        requires
            old(self).wf(),
            fits(*figure, at.dx as int, at.dy as int),
            forall|i: int|
                0 <= i < figure.points@.len() ==> in_grid(
                    #[trigger] cell_x(*figure, at.dx as int, i),
                    cell_y(*figure, at.dy as int, i),
                ),
        ensures
            old(self).put_gives(*final(self), at.dx as int, at.dy as int, *figure),
    {
        let cells = Field::coords(at, figure);
        let ghost ax = at.dx as int;
        let ghost ay = at.dy as int;
        let mut i: usize = 0;
        while i < cells.len()
            invariant
                self.wf(),
                ax == at.dx,
                ay == at.dy,
                i <= cells@.len(),
                cells@.len() == figure.points@.len(),
                forall|k: int|
                    0 <= k < cells@.len() ==> (#[trigger] cells@[k]).dx == cell_x(*figure, ax, k)
                        && cells@[k].dy == cell_y(*figure, ay, k),
                forall|k: int|
                    0 <= k < figure.points@.len() ==> in_grid(
                        #[trigger] cell_x(*figure, ax, k),
                        cell_y(*figure, ay, k),
                    ),
                forall|x: int, y: int|
                    in_grid(x, y) ==> #[trigger] self.slot(x, y) == if covers_first(
                        *figure,
                        ax,
                        ay,
                        i as int,
                        x,
                        y,
                    ) {
                        Some(figure.color@)
                    } else {
                        old(self).slot(x, y)
                    },
            decreases cells@.len() - i,
        {
            let p = cells[i];
            let ghost k = i as int;
            let ghost cx = p.dx as int;
            let ghost cy = p.dy as int;
            assert(cx == cell_x(*figure, ax, k) && cy == cell_y(*figure, ay, k));
            assert(in_grid(cx, cy));
            proof {
                lemma_index(cx, cy);
            }
            let idx: usize = p.dy as usize * COLS as usize + p.dx as usize;
            let ghost prev = *self;
            self.slots.set(idx, Some(figure.color.clone()));
            assert forall|x: int, y: int| in_grid(x, y) implies #[trigger] self.slot(x, y)
                == if covers_first(*figure, ax, ay, k + 1, x, y) {
                Some(figure.color@)
            } else {
                old(self).slot(x, y)
            } by {
                lemma_index(x, y);
                if x == cx && y == cy {
                    assert(covers_first(*figure, ax, ay, k + 1, x, y));
                } else {
                    assert(self.slot(x, y) == prev.slot(x, y));
                    if covers_first(*figure, ax, ay, k + 1, x, y) {
                        let j = choose|j: int|
                            0 <= j < k + 1 && cell_x(*figure, ax, j) == x && cell_y(
                                *figure,
                                ay,
                                j,
                            ) == y;
                        assert(j != k);
                        assert(covers_first(*figure, ax, ay, k, x, y));
                    }
                }
            }
            i += 1;
        }
    }

    /// What cell `(x, y)` holds: `None` when it is empty, else its color.
    pub fn get(&self, x: u8, y: u8) -> (r: Option<String>)
        requires
            self.wf(),
            in_grid(x as int, y as int),
        ensures
            match r {
                Some(c) => self.slot(x as int, y as int) == Some(c@),
                None => self.slot(x as int, y as int) == None::<Seq<char>>,
            },
    {
        proof {
            lemma_index(x as int, y as int);
        }
        self.slots[y as usize * COLS as usize + x as usize].clone()
    }
}

} // verus!
