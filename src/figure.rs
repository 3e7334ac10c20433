//! Tetromino shapes: a color and block offsets in a shape-local frame at
//! twice the grid resolution.
use vstd::prelude::*;

use rand::Rng;

use crate::coords::Coords;

verus! {

/// Smallest element of a sequence of integers (`0` for an empty one).
pub open spec fn seq_min(s: Seq<int>) -> int
    decreases s.len(),
{
    if s.len() == 0 {
        0
    } else if s.len() == 1 {
        s[0]
    } else {
        let m = seq_min(s.drop_last());
        if s.last() < m { s.last() } else { m }
    }
}

/// Largest element of a sequence of integers (`0` for an empty one).
pub open spec fn seq_max(s: Seq<int>) -> int
    decreases s.len(),
{
    if s.len() == 0 {
        0
    } else if s.len() == 1 {
        s[0]
    } else {
        let m = seq_max(s.drop_last());
        if s.last() > m { s.last() } else { m }
    }
}

/// The horizontal components of a sequence of vectors.
pub open spec fn xs(s: Seq<Coords>) -> Seq<int> {
    s.map_values(|p: Coords| p.dx as int)
}

/// The vertical components of a sequence of vectors.
pub open spec fn ys(s: Seq<Coords>) -> Seq<int> {
    s.map_values(|p: Coords| p.dy as int)
}

/// `seq_min` is a member of the sequence and no element is below it.
pub proof fn lemma_seq_min(s: Seq<int>)
    requires
        s.len() > 0,
    ensures
        forall|i: int| 0 <= i < s.len() ==> seq_min(s) <= s[i],
        exists|i: int| 0 <= i < s.len() && seq_min(s) == s[i],
    decreases s.len(),
{
    if s.len() > 1 {
        let t = s.drop_last();
        lemma_seq_min(t);
        let k = choose|k: int| 0 <= k < t.len() && seq_min(t) == t[k];
        assert(forall|i: int| 0 <= i < t.len() ==> t[i] == s[i]);
        if s.last() < seq_min(t) {
            assert(seq_min(s) == s[s.len() - 1]);
        } else {
            assert(seq_min(s) == s[k]);
        }
    } else {
        assert(seq_min(s) == s[0]);
    }
}

/// `seq_max` is a member of the sequence and no element is above it.
pub proof fn lemma_seq_max(s: Seq<int>)
    requires
        s.len() > 0,
    ensures
        forall|i: int| 0 <= i < s.len() ==> s[i] <= seq_max(s),
        exists|i: int| 0 <= i < s.len() && seq_max(s) == s[i],
    decreases s.len(),
{
    if s.len() > 1 {
        let t = s.drop_last();
        lemma_seq_max(t);
        let k = choose|k: int| 0 <= k < t.len() && seq_max(t) == t[k];
        assert(forall|i: int| 0 <= i < t.len() ==> t[i] == s[i]);
        if s.last() > seq_max(t) {
            assert(seq_max(s) == s[s.len() - 1]);
        } else {
            assert(seq_max(s) == s[k]);
        }
    } else {
        assert(seq_max(s) == s[0]);
    }
}

/// Two nonempty sequences in which each element of one is matched by an
/// element of the other that is no larger have the same minimum.
proof fn lemma_seq_min_matched(s: Seq<int>, t: Seq<int>)
    requires
        s.len() > 0,
        t.len() > 0,
        forall|i: int| 0 <= i < s.len() ==> t.contains(#[trigger] s[i]),
        forall|j: int| 0 <= j < t.len() ==> s.contains(#[trigger] t[j]),
    ensures
        seq_min(s) == seq_min(t),
{
    lemma_seq_min(s);
    lemma_seq_min(t);
    let i = choose|i: int| 0 <= i < s.len() && seq_min(s) == s[i];
    let j = choose|j: int| 0 <= j < t.len() && seq_min(t) == t[j];
    let j2 = choose|j2: int| 0 <= j2 < t.len() && t[j2] == s[i];
    let i2 = choose|i2: int| 0 <= i2 < s.len() && s[i2] == t[j];
    assert(seq_min(t) <= t[j2]);
    assert(seq_min(s) <= s[i2]);
}

/// The componentwise minimum does not depend on the order of the points:
/// two figures whose points are the same multiset have the same origin.
pub proof fn lemma_origin_independent_of_order(f: Figure, g: Figure)
    requires
        f.points@.len() > 0,
        f.points@.to_multiset() == g.points@.to_multiset(),
    ensures
        f.origin() == g.origin(),
{
    broadcast use vstd::seq_lib::group_to_multiset_ensures;

    let (a, b) = (f.points@, g.points@);
    assert(b.len() == b.to_multiset().len());
    assert(a.len() == a.to_multiset().len());
    assert forall|i: int| 0 <= i < a.len() implies xs(b).contains(#[trigger] xs(a)[i])
        && ys(b).contains(ys(a)[i]) by {
        assert(a.to_multiset().count(a[i]) > 0);
        assert(b.contains(a[i]));
        let j = choose|j: int| 0 <= j < b.len() && b[j] == a[i];
        assert(xs(b)[j] == xs(a)[i] && ys(b)[j] == ys(a)[i]);
    }
    assert forall|j: int| 0 <= j < b.len() implies xs(a).contains(#[trigger] xs(b)[j])
        && ys(a).contains(ys(b)[j]) by {
        assert(b.to_multiset().count(b[j]) > 0);
        assert(a.contains(b[j]));
        let i = choose|i: int| 0 <= i < a.len() && a[i] == b[j];
        assert(xs(a)[i] == xs(b)[j] && ys(a)[i] == ys(b)[j]);
    }
    assert forall|i: int| 0 <= i < a.len() implies ys(b).contains(#[trigger] ys(a)[i]) by {
        assert(xs(b).contains(xs(a)[i]));
    }
    assert forall|j: int| 0 <= j < b.len() implies ys(a).contains(#[trigger] ys(b)[j]) by {
        assert(xs(a).contains(xs(b)[j]));
    }
    lemma_seq_min_matched(xs(a), xs(b));
    lemma_seq_min_matched(ys(a), ys(b));
}

/// One tetromino variant: a color and its block offsets.
pub struct Figure {
    pub color: String,
    pub points: Vec<Coords>,
}

impl Figure {
    /// Componentwise minimum of the points: the corner that placement
    /// normalizes to.
    pub open spec fn origin(self) -> (int, int) {
        (seq_min(xs(self.points@)), seq_min(ys(self.points@)))
    }

    /// Extent of the points, largest minus smallest, in each component.
    pub open spec fn span(self) -> (int, int) {
        (
            seq_max(xs(self.points@)) - seq_min(xs(self.points@)),
            seq_max(ys(self.points@)) - seq_min(ys(self.points@)),
        )
    }

    /// Whether every point can be rotated within the range of `i8`.
    pub open spec fn can_rotate(self) -> bool {
        forall|i: int| 0 <= i < self.points@.len() ==> (#[trigger] self.points@[i]).can_rotate()
    }

    /// The same figure with every point rotated by 90 degrees, in the same
    /// order and with the same color.
    pub fn rotate(&self) -> (r: Figure)
        requires
            self.can_rotate(),
        ensures
            r.color == self.color,
            r.points@ == self.points@.map_values(|p: Coords| p.rotated()),
    {
        let mut points: Vec<Coords> = Vec::new();
        let mut i: usize = 0;
        while i < self.points.len()
            invariant
                i <= self.points@.len(),
                self.can_rotate(),
                points@ == self.points@.subrange(0, i as int).map_values(|p: Coords| p.rotated()),
            decreases self.points@.len() - i,
        {
            assert(self.points@[i as int].can_rotate());
            points.push(self.points[i].rotate());
            assert(self.points@.subrange(0, i + 1) == self.points@.subrange(0, i as int).push(
                self.points@[i as int],
            ));
            i += 1;
        }
        assert(self.points@.subrange(0, i as int) == self.points@);
        Figure { color: self.color.clone(), points }
    }

    /// The componentwise minimum of the points, each component on its own.
    pub fn get_origin(&self) -> (r: Coords)
        requires
            self.points@.len() > 0,
        ensures
            r.dx == self.origin().0,
            r.dy == self.origin().1,
            forall|i: int| 0 <= i < self.points@.len() ==> r.dx <= self.points@[i].dx,
            forall|i: int| 0 <= i < self.points@.len() ==> r.dy <= self.points@[i].dy,
            exists|i: int| 0 <= i < self.points@.len() && r.dx == self.points@[i].dx,
            exists|i: int| 0 <= i < self.points@.len() && r.dy == self.points@[i].dy,
    {
        let ghost pts = self.points@;
        let mut dx: i8 = self.points[0].dx;
        let mut dy: i8 = self.points[0].dy;
        let mut i: usize = 1;
        while i < self.points.len()
            invariant
                1 <= i <= pts.len(),
                pts == self.points@,
                dx == seq_min(xs(pts.subrange(0, i as int))),
                dy == seq_min(ys(pts.subrange(0, i as int))),
            decreases pts.len() - i,
        {
            let p = self.points[i];
            let ghost s = pts.subrange(0, i + 1);
            assert(s.drop_last() == pts.subrange(0, i as int));
            assert(xs(s).drop_last() == xs(s.drop_last()));
            assert(ys(s).drop_last() == ys(s.drop_last()));
            if p.dx < dx {
                dx = p.dx;
            }
            if p.dy < dy {
                dy = p.dy;
            }
            i += 1;
        }
        assert(pts.subrange(0, i as int) == pts);
        proof {
            lemma_seq_min(xs(pts));
            lemma_seq_min(ys(pts));
            assert forall|i: int| 0 <= i < pts.len() implies dx <= pts[i].dx && dy <= pts[i].dy by {
                assert(xs(pts)[i] == pts[i].dx);
                assert(ys(pts)[i] == pts[i].dy);
            }
        }
        Coords { dx, dy }
    }
}

/// Color of the `i`-th figure of the catalog.
pub open spec fn catalog_color(i: int) -> Seq<char> {
    if i == 0 {
        "blue"@
    } else if i == 1 {
        "red"@
    } else if i == 2 {
        "orange"@
    } else if i == 3 {
        "green"@
    } else if i == 4 {
        "gray"@
    } else if i == 5 {
        "lightblue"@
    } else {
        "yellow"@
    }
}

/// Shorthand for a point of the catalog.
pub open spec fn pt(dx: int, dy: int) -> Coords {
    Coords { dx: dx as i8, dy: dy as i8 }
}

/// Points of the `i`-th figure of the catalog.
pub open spec fn catalog_points(i: int) -> Seq<Coords> {
    if i == 0 {
        seq![pt(-1, -1), pt(-1, 1), pt(1, -1), pt(1, 1)]
    } else if i == 1 {
        seq![pt(-1, -1), pt(1, -1), pt(1, 1), pt(1, 3)]
    } else if i == 2 {
        seq![pt(1, -1), pt(-1, -1), pt(-1, 1), pt(-1, 3)]
    } else if i == 3 {
        seq![pt(-2, 0), pt(0, 0), pt(2, 0), pt(4, 0)]
    } else if i == 4 {
        seq![pt(0, 2), pt(0, 0), pt(2, 0), pt(2, -2)]
    } else if i == 5 {
        seq![pt(0, 2), pt(0, 0), pt(-2, 0), pt(-2, -2)]
    } else {
        seq![pt(0, 2), pt(0, 0), pt(0, -2), pt(2, 0)]
    }
}

fn figure(color: &str, points: Vec<Coords>) -> (r: Figure)
    ensures
        r.color@ == color@,
        r.points == points,
{
    Figure { color: color.to_owned(), points }
}

/// The seven tetrominoes, one per color.
pub fn catalog() -> (r: [Figure; 7])
    ensures
        forall|i: int|
            0 <= i < 7 ==> (#[trigger] r@[i]).color@ == catalog_color(i) && r@[i].points@
                == catalog_points(i),
{
    let c = |dx: i8, dy: i8| -> (p: Coords)
        ensures
            p == pt(dx as int, dy as int),
        { Coords { dx, dy } };
    let r = [
        figure("blue", vec![c(-1, -1), c(-1, 1), c(1, -1), c(1, 1)]),
        figure("red", vec![c(-1, -1), c(1, -1), c(1, 1), c(1, 3)]),
        figure("orange", vec![c(1, -1), c(-1, -1), c(-1, 1), c(-1, 3)]),
        figure("green", vec![c(-2, 0), c(0, 0), c(2, 0), c(4, 0)]),
        figure("gray", vec![c(0, 2), c(0, 0), c(2, 0), c(2, -2)]),
        figure("lightblue", vec![c(0, 2), c(0, 0), c(-2, 0), c(-2, -2)]),
        figure("yellow", vec![c(0, 2), c(0, 0), c(0, -2), c(2, 0)]),
    ];
    proof {
        reveal_strlit("blue");
        reveal_strlit("red");
        reveal_strlit("orange");
        reveal_strlit("green");
        reveal_strlit("gray");
        reveal_strlit("lightblue");
        reveal_strlit("yellow");
    }
    r
}

/// Relies on rand's `thread_rng().gen_range(0..n)`: a value drawn from
/// `[0, n)`. It panics on an empty range, hence `n > 0`.
#[verifier::external_body]
fn random_below(n: usize) -> (r: usize)
    requires
        n > 0,
    ensures
        r < n,
{
    rand::thread_rng().gen_range(0..n)
}

/// One of the figures, drawn uniformly at random; the entry itself, not a
/// copy.
pub fn next_random(figures: &[Figure; 7]) -> (r: &Figure)
    ensures
        exists|i: int| 0 <= i < 7 && *r == figures@[i],
{
    let i = random_below(7);
    pick(figures, i)
}

/// The figure at index `i`: the entry itself, not a copy.
pub fn pick(figures: &[Figure; 7], i: usize) -> (r: &Figure)
    requires
        i < 7,
    ensures
        *r == figures@[i as int],
{
    &figures[i]
}

} // verus!
