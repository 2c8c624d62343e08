use vstd::prelude::*;

verus! {

/// A point whose two coordinates may have different types.
pub struct Point<T, U> {
    pub x: T,
    pub y: U,
}

impl<X1, Y1> Point<X1, Y1> {
    /// Takes `x` from `self` and `y` from `other`, consuming both points.
    pub fn mixup<X2, Y2>(self, other: Point<X2, Y2>) -> (r: Point<X1, Y2>)
        ensures
            r.x == self.x,
            r.y == other.y,
    {
        Point { x: self.x, y: other.y }
    }
}

/// A point in space whose three coordinates share one type.
pub struct Point3d<T> {
    pub x: T,
    pub y: T,
    pub z: T,
}

impl<T> Point3d<T> {
    /// Borrows the first coordinate.
    pub fn x(&self) -> (r: &T)
        ensures
            *r == self.x,
    {
        &self.x
    }
}

} // verus!
