use vstd::prelude::*;
use crate::geom::Rect;

verus! {

/// The orientation of a fork: along which axis its two branches lie.
#[derive(Copy, Clone, Debug, PartialEq, Eq, Structural)]
pub enum Orientation {
    /// The branches lie side by side; the split is a width.
    Horizontal,
    /// The branches lie one above the other; the split is a height.
    Vertical,
}

impl Orientation {
    pub open spec fn flipped(self) -> Orientation {
        match self {
            Orientation::Horizontal => Orientation::Vertical,
            Orientation::Vertical => Orientation::Horizontal,
        }
    }

    /// The length of `rect` along the axis that a fork of this orientation splits.
    pub open spec fn axis(self, rect: Rect) -> u32 {
        match self {
            Orientation::Horizontal => rect.width,
            Orientation::Vertical => rect.height,
        }
    }

    pub fn flip(self) -> (r: Orientation)
        ensures
            r == self.flipped(),
    {
        match self {
            Orientation::Horizontal => Orientation::Vertical,
            Orientation::Vertical => Orientation::Horizontal,
        }
    }

    pub fn axis_of(self, rect: &Rect) -> (r: u32)
        ensures
            r == self.axis(*rect),
    {
        match self {
            Orientation::Horizontal => rect.width,
            Orientation::Vertical => rect.height,
        }
    }
}

/// The orientation that suits a rectangle: vertical where it is taller than wide.
pub open spec fn preferred(rect: Rect) -> Orientation {
    if rect.height > rect.width {
        Orientation::Vertical
    } else {
        Orientation::Horizontal
    }
}

pub fn preferred_orientation(rect: Rect) -> (r: Orientation)
    ensures
        r == preferred(rect),
{
    if rect.height > rect.width {
        Orientation::Vertical
    } else {
        Orientation::Horizontal
    }
}

} // verus!
