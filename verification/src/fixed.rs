use vstd::prelude::*;

verus! {

/// A fixed-point number in thousandths: `Fx { units: 1500 }` stands for one
/// and a half. The chart format stores fractional grid
/// coordinates and scale factors; this type carries them as plain integers
/// so that every computation on them is exact.
#[derive(Clone, Copy, PartialEq, Eq, Structural, Debug)]
pub struct Fx {
    pub units: i64,
}

impl View for Fx {
    type V = int;

    open spec fn view(&self) -> int {
        self.units as int
    }
}

/// The fixed-point number with the given value in thousandths.
pub open spec fn fx(units: int) -> Fx {
    Fx { units: units as i64 }
}

impl Fx {
    /// The fixed-point number equal to the integer `v`.
    pub fn from_int(v: i32) -> (r: Fx)
        ensures
            r@ == v as int * 1000,
    {
        Fx { units: (v as i64) * 1000 }
    }
}

/// A two-dimensional point or extent in fixed-point coordinates.
#[derive(Clone, Copy, PartialEq, Eq, Structural, Debug)]
pub struct Vec2 {
    pub x: Fx,
    pub y: Fx,
}

/// An axis-aligned rectangle given by two corners.
#[derive(Clone, Copy, PartialEq, Eq, Structural, Debug)]
pub struct Rect {
    pub min: Vec2,
    pub max: Vec2,
}

/// Bound on the grid coordinates and sizes a shape may hold before it is
/// projected: one thousand grid units, in thousandths.
pub const GRID_LIMIT: i64 = 1_000_000;

/// Bound on the pixel coordinates of an output rectangle, in thousandths.
pub const RECT_LIMIT: i64 = 1_000_000_000_000;

/// The output rectangles that the projection accepts: corners ordered and
/// within `RECT_LIMIT`.
pub open spec fn rect_wf(r: Rect) -> bool {
    &&& -RECT_LIMIT <= r.min.x@ <= r.max.x@ <= RECT_LIMIT
    &&& -RECT_LIMIT <= r.min.y@ <= r.max.y@ <= RECT_LIMIT
}

} // verus!
