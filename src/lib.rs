//! Finding the largest element of a slice, once for every ordered element
//! type, together with small generic point types.
pub mod largest;
pub mod point;

pub use largest::{find_max, get_largest, get_largest_char, get_largest_integer, MaxError};
pub use point::{Point, Point3d};
