//! Addresses into the grid: a row-major index, or a column and row.
use vstd::prelude::*;

verus! {

/// A place in the grid: `Cords` by column `x` and row `y`, `Index` by row-major offset.
#[derive(Debug, Clone, Copy, PartialEq, Eq)]
pub enum Location {
    Cords { x: u16, y: u16 },
    Index(usize),
}

impl Location {
    /// Whether the location lies inside a `width` by `height` grid.
    pub open spec fn in_grid(self, width: nat, height: nat) -> bool {
        match self {
            Location::Index(i) => i < width * height,
            Location::Cords { x, y } => x < width && y < height,
        }
    }

    /// The row-major offset of the location in a grid `width` cells wide.
    pub open spec fn offset(self, width: nat) -> int {
        match self {
            Location::Index(i) => i as int,
            Location::Cords { x, y } => y * width + x,
        }
    }

    /// The column of the location in a grid `width` cells wide.
    pub open spec fn column(self, width: nat) -> int {
        match self {
            Location::Index(i) => i as int % width as int,
            Location::Cords { x, .. } => x as int,
        }
    }

    /// The row of the location in a grid `width` cells wide.
    pub open spec fn row(self, width: nat) -> int {
        match self {
            Location::Index(i) => i as int / width as int,
            Location::Cords { y, .. } => y as int,
        }
    }
}

impl From<(usize, usize)> for Location {
    fn from(xy: (usize, usize)) -> (r: Self)
        ensures
            r == (Location::Cords { x: xy.0 as u16, y: xy.1 as u16 }),
    {
        Location::Cords { x: xy.0 as u16, y: xy.1 as u16 }
    }
}

impl vstd::std_specs::convert::FromSpecImpl<(usize, usize)> for Location {
    open spec fn obeys_from_spec() -> bool {
        true
    }

    open spec fn from_spec(xy: (usize, usize)) -> Self {
        Location::Cords { x: xy.0 as u16, y: xy.1 as u16 }
    }
}

impl From<(u16, u16)> for Location {
    fn from(xy: (u16, u16)) -> (r: Self)
        ensures
            r == (Location::Cords { x: xy.0, y: xy.1 }),
    {
        Location::Cords { x: xy.0, y: xy.1 }
    }
}

impl vstd::std_specs::convert::FromSpecImpl<(u16, u16)> for Location {
    open spec fn obeys_from_spec() -> bool {
        true
    }

    open spec fn from_spec(xy: (u16, u16)) -> Self {
        Location::Cords { x: xy.0, y: xy.1 }
    }
}

impl From<usize> for Location {
    fn from(idx: usize) -> (r: Self)
        ensures
            r == Location::Index(idx),
    {
        Location::Index(idx)
    }
}

impl vstd::std_specs::convert::FromSpecImpl<usize> for Location {
    open spec fn obeys_from_spec() -> bool {
        true
    }

    open spec fn from_spec(idx: usize) -> Self {
        Location::Index(idx)
    }
}

impl From<u16> for Location {
    fn from(idx: u16) -> (r: Self)
        ensures
            r == Location::Index(idx as usize),
    {
        Location::Index(idx as usize)
    }
}

impl vstd::std_specs::convert::FromSpecImpl<u16> for Location {
    open spec fn obeys_from_spec() -> bool {
        true
    }

    open spec fn from_spec(idx: u16) -> Self {
        Location::Index(idx as usize)
    }
}

} // verus!
