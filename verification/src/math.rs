use vstd::prelude::*;

verus! {

/// A vector on the integer plane. Facings of agents are the four unit vectors
/// along the axes.
#[derive(Clone, Copy, Debug, PartialEq, Eq, Structural)]
pub struct Vec2i {
    pub x: i32,
    pub y: i32,
}

impl Vec2i {
    /// One of `(0, 1)`, `(1, 0)`, `(0, -1)`, `(-1, 0)`.
    pub open spec fn is_cardinal(self) -> bool {
        ||| (self.x == 0 && self.y == 1)
        ||| (self.x == 1 && self.y == 0)
        ||| (self.x == 0 && self.y == -1)
        ||| (self.x == -1 && self.y == 0)
    }

    pub open spec fn spec_neg(self) -> Vec2i {
        Vec2i { x: (-self.x) as i32, y: (-self.y) as i32 }
    }

    pub open spec fn spec_dot(self, other: Vec2i) -> int {
        self.x * other.x + self.y * other.y
    }

    /// The vector turned a quarter turn counter-clockwise.
    pub open spec fn spec_right_ccw(self) -> Vec2i {
        Vec2i { x: (-self.y) as i32, y: self.x }
    }

    /// The vector turned a quarter turn clockwise.
    pub open spec fn spec_right_cw(self) -> Vec2i {
        Vec2i { x: self.y, y: (-self.x) as i32 }
    }

    pub fn new(x: i32, y: i32) -> (v: Vec2i)
        ensures
            v == (Vec2i { x, y }),
    {
        Vec2i { x, y }
    }

    pub fn cardinal(self) -> (b: bool)
        ensures
            b == self.is_cardinal(),
    {
        (self.x == 0 && (self.y == 1 || self.y == -1)) || (self.y == 0 && (self.x == 1 || self.x
            == -1))
    }

    /// The opposite vector.
    pub fn neg(self) -> (v: Vec2i)
        requires
            self.x > i32::MIN,
            self.y > i32::MIN,
        ensures
            v == self.spec_neg(),
            v.x == -self.x,
            v.y == -self.y,
    {
        Vec2i { x: -self.x, y: -self.y }
    }

    /// The dot product, computed without overflow.
    pub fn dot_ex(self, other: Vec2i) -> (d: i128)
        ensures
            d == self.spec_dot(other),
    {
        let a: i128 = self.x as i128;
        let b: i128 = other.x as i128;
        let c: i128 = self.y as i128;
        let e: i128 = other.y as i128;
        assert(-0x4000_0000_0000_0000 <= a * b <= 0x4000_0000_0000_0000) by (nonlinear_arith)
            requires
                -0x8000_0000 <= a <= 0x8000_0000,
                -0x8000_0000 <= b <= 0x8000_0000,
        ;
        assert(-0x4000_0000_0000_0000 <= c * e <= 0x4000_0000_0000_0000) by (nonlinear_arith)
            requires
                -0x8000_0000 <= c <= 0x8000_0000,
                -0x8000_0000 <= e <= 0x8000_0000,
        ;
        a * b + c * e
    }

    pub fn right_ccw(self) -> (v: Vec2i)
        requires
            self.y > i32::MIN,
        ensures
            v == self.spec_right_ccw(),
            v.x == -self.y,
    {
        Vec2i { x: -self.y, y: self.x }
    }

    pub fn right_cw(self) -> (v: Vec2i)
        requires
            self.x > i32::MIN,
        ensures
            v == self.spec_right_cw(),
            v.y == -self.x,
    {
        Vec2i { x: self.y, y: -self.x }
    }
}

} // verus!
