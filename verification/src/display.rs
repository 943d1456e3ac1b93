//! The rectangle of the world that a map snapshot shows.

use vstd::prelude::*;

verus! {

/// A view rectangle: its origin, its extent, and how many tiles make up
/// one cell of the snapshot.
#[derive(Clone, Copy, Debug)]
pub struct Img {
    pub x_origin: u16,
    pub y_origin: u16,
    pub x_length: u16,
    pub y_length: u16,
    pub resolution: u16,
}

impl Img {
    /// Whether the tile `(x, y)` lies inside the rectangle.
    pub open spec fn shows(self, x: u16, y: u16) -> bool {
        &&& self.x_origin <= x < self.x_origin + self.x_length
        &&& self.y_origin <= y < self.y_origin + self.y_length
    }

    /// Whether the tile `(x, y)` lies inside the rectangle.
    pub fn contains(&self, x: u16, y: u16) -> (inside: bool)
        ensures
            inside == self.shows(x, y),
    {
        x >= self.x_origin && (x as u32) < self.x_origin as u32 + self.x_length as u32 && y
            >= self.y_origin && (y as u32) < self.y_origin as u32 + self.y_length as u32
    }
}

} // verus!
