//! Integer 2D displacements, used both as shape-local offsets and as
//! absolute grid coordinates.
use vstd::prelude::*;

verus! {

/// Rust's integer division, which rounds toward zero, stated over
/// mathematical integers. Verus's `/` on `int` is Euclidean; the two agree
/// when the dividend is not negative.
pub open spec fn trunc_div(a: int, b: int) -> int {
    if a >= 0 {
        a / b
    } else {
        -((-a) / b)
    }
}

/// Dividing by a negative number gives the negated quotient by its
/// magnitude, for a dividend that is not negative.
proof fn lemma_div_negative_divisor(a: int, b: int)
    requires
        a >= 0,
        b < 0,
    ensures
        a / b == -(a / (-b)),
        0 <= a / (-b) <= a,
{
    assert(a / b == -(a / (-b))) by (nonlinear_arith)
        requires a >= 0, b < 0;
    assert(0 <= a / (-b) <= a) by (nonlinear_arith)
        requires a >= 0, b < 0;
}

/// A 2D integer displacement.
#[derive(Clone, Copy, Debug, PartialEq, Eq, Structural)]
pub struct Coords {
    pub dx: i8,
    pub dy: i8,
}

impl Coords {
    /// Rotation by 90 degrees on the lattice: `(dx, dy)` becomes `(-dy, dx)`.
    pub open spec fn rotated(self) -> Coords {
        Coords { dx: (-self.dy) as i8, dy: self.dx }
    }

    /// Whether `rotate` can be applied without leaving the range of `i8`.
    pub open spec fn can_rotate(self) -> bool {
        self.dy != i8::MIN
    }

    pub fn rotate(&self) -> (r: Coords)
        requires
            self.can_rotate(),
        ensures
            r == self.rotated(),
            r.dx == -self.dy,
            r.dy == self.dx,
    {
        Coords { dx: -self.dy, dy: self.dx }
    }

    /// Rotation is a group of order four: four quarter turns give the vector
    /// back, and two give its negation.
    pub proof fn lemma_rotate_order_four(v: Coords)
        requires
            v.dx != i8::MIN,
            v.dy != i8::MIN,
        ensures
            v.rotated().rotated().rotated().rotated() == v,
            v.rotated().rotated() == (Coords { dx: -v.dx as i8, dy: -v.dy as i8 }),
    {
    }

    /// Componentwise sum.
    pub fn add(&self, coords: &Coords) -> (r: Coords)
        requires
            i8::MIN <= self.dx + coords.dx <= i8::MAX,
            i8::MIN <= self.dy + coords.dy <= i8::MAX,
        ensures
            r.dx == self.dx + coords.dx,
            r.dy == self.dy + coords.dy,
    {
        Coords { dx: self.dx + coords.dx, dy: self.dy + coords.dy }
    }

    /// Componentwise difference.
    pub fn sub(&self, coords: &Coords) -> (r: Coords)
        requires
            i8::MIN <= self.dx - coords.dx <= i8::MAX,
            i8::MIN <= self.dy - coords.dy <= i8::MAX,
        ensures
            r.dx == self.dx - coords.dx,
            r.dy == self.dy - coords.dy,
    {
        Coords { dx: self.dx - coords.dx, dy: self.dy - coords.dy }
    }

    /// Truncating division of `dx` by `v`. The vertical component is always
    /// halved, whatever `v` is: only `dx` depends on the divisor.
    pub fn div(&self, v: i8) -> (r: Coords)
        requires
            v != 0,
            !(v == -1 && self.dx == i8::MIN),
        ensures
            r.dx == trunc_div(self.dx as int, v as int),
            r.dy == trunc_div(self.dy as int, 2),
    {
        // A negative divisor is reduced to its magnitude: Rust's division
        // rounds toward zero, so `a / -b == -(a / b)`.
        let q: i8 = if v > 0 {
            self.dx / v
        } else if v == i8::MIN {
            if self.dx == i8::MIN { 1 } else { 0 }
        } else {
            proof {
                if self.dx >= 0 {
                    lemma_div_negative_divisor(self.dx as int, v as int);
                } else {
                    lemma_div_negative_divisor(-self.dx, v as int);
                    let (a, m) = (-self.dx, -v);
                    assert(a / m < 128) by (nonlinear_arith)
                        requires 0 < a <= 128, 1 <= m, a == 128 ==> m >= 2;
                }
            }
            -(self.dx / -v)
        };
        Coords { dx: q, dy: self.dy / 2 }
    }
}

} // verus!
