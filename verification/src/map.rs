//! Grid geometry: coordinates, movement directions, and the bounded grid with
//! its positional scoring.
//!
//! The y axis points down: `Up` decreases y and `Down` increases it.

use vstd::prelude::*;

use crate::constants::MAX_GRID_SIDE;

verus! {

/// A 2-D integer coordinate.
#[derive(Clone, Copy, Debug, Hash, PartialEq, Eq, Structural)]
pub struct Coord {
    pub x: i32,
    pub y: i32,
}

/// The absolute value.
pub open spec fn abs_int(x: int) -> int {
    if x < 0 {
        -x
    } else {
        x
    }
}

/// Manhattan distance between two coordinates.
pub open spec fn spec_manhattan(a: Coord, b: Coord) -> int {
    abs_int(a.x - b.x) + abs_int(a.y - b.y)
}

impl Coord {
    pub fn new(x: i32, y: i32) -> (r: Coord)
        ensures
            r == (Coord { x, y }),
    {
        Coord { x, y }
    }

    /// Manhattan distance to `other`; exact for all coordinates.
    pub fn manhattan_dist(&self, other: Coord) -> (r: i64)
        ensures
            r == spec_manhattan(*self, other),
    {
        let dx: i64 = if self.x >= other.x {
            self.x as i64 - other.x as i64
        } else {
            other.x as i64 - self.x as i64
        };
        let dy: i64 = if self.y >= other.y {
            self.y as i64 - other.y as i64
        } else {
            other.y as i64 - self.y as i64
        };
        dx + dy
    }
}

/// The four movement directions.
#[derive(Clone, Copy, Debug, Hash, PartialEq, Eq, Structural)]
pub enum Direction {
    Up,
    Down,
    Left,
    Right,
}

/// The coordinate one step in `dir` from `c`, with the y axis pointing down.
pub open spec fn spec_step(dir: Direction, c: Coord) -> Coord {
    match dir {
        Direction::Up => Coord { x: c.x, y: (c.y - 1) as i32 },
        Direction::Down => Coord { x: c.x, y: (c.y + 1) as i32 },
        Direction::Left => Coord { x: (c.x - 1) as i32, y: c.y },
        Direction::Right => Coord { x: (c.x + 1) as i32, y: c.y },
    }
}

/// Moves `c` one step in `dir`, with the y axis pointing down.
pub fn step(dir: Direction, c: Coord) -> (r: Coord)
    requires
        -0x4000_0000 <= c.x <= 0x4000_0000,
        -0x4000_0000 <= c.y <= 0x4000_0000,
    ensures
        r == spec_step(dir, c),
{
    match dir {
        Direction::Up => Coord { x: c.x, y: c.y - 1 },
        Direction::Down => Coord { x: c.x, y: c.y + 1 },
        Direction::Left => Coord { x: c.x - 1, y: c.y },
        Direction::Right => Coord { x: c.x + 1, y: c.y },
    }
}

/// Rounds an even side length up to the next odd one.
pub open spec fn odd_side(side: u32) -> u32 {
    if side % 2 == 1 {
        side
    } else {
        (side + 1) as u32
    }
}

/// A bounded grid with a scoring center.
///
/// Both sides are odd, so the center cell is exact; `longest_sq` caches the
/// squared Euclidean distance from the center to a corner, the unit in which
/// conversions are valued.
#[derive(Clone, Copy, Debug, PartialEq, Eq, Structural)]
pub struct Grid {
    pub height: u32,
    pub width: u32,
    pub center: Coord,
    pub longest_sq: i64,
}

/// The coordinate lies on the grid.
pub open spec fn in_bounds(g: Grid, c: Coord) -> bool {
    0 <= c.x < g.width && 0 <= c.y < g.height
}

/// Squared Euclidean distance from the grid's center.
pub open spec fn spec_dist_sq(g: Grid, c: Coord) -> int {
    (c.x - g.center.x) * (c.x - g.center.x) + (c.y - g.center.y) * (c.y - g.center.y)
}

/// Positional score of a cell: greatest at the center, falling off with the
/// squared distance from it.
pub open spec fn spec_distance_points(g: Grid, c: Coord) -> int {
    g.longest_sq - spec_dist_sq(g, c)
}

impl Grid {
    /// The grid's invariant: odd bounded sides, the exact center, and the
    /// cached corner distance.
    pub open spec fn wf(self) -> bool {
        &&& 1 <= self.height <= MAX_GRID_SIDE
        &&& 1 <= self.width <= MAX_GRID_SIDE
        &&& self.height % 2 == 1
        &&& self.width % 2 == 1
        &&& self.center.x == self.width / 2
        &&& self.center.y == self.height / 2
        &&& self.longest_sq == self.center.x * self.center.x + self.center.y * self.center.y
    }

    /// Builds a grid of roughly the requested size, rounding even side lengths
    /// up to odd ones so the center cell is exact.
    pub fn new(height: u32, width: u32) -> (r: Grid)
        requires
            1 <= height < MAX_GRID_SIDE,
            1 <= width < MAX_GRID_SIDE,
        ensures
            r.wf(),
            r.height == odd_side(height),
            r.width == odd_side(width),
    {
        let height = if height % 2 == 1 {
            height
        } else {
            height + 1
        };
        let width = if width % 2 == 1 {
            width
        } else {
            width + 1
        };
        let center = Coord::new((width / 2) as i32, (height / 2) as i32);
        let cx = center.x as i64;
        let cy = center.y as i64;
        proof {
            assert(0 <= cx <= 50_000 && 0 <= cy <= 50_000);
            assert(cx * cx <= 2_500_000_000 && cy * cy <= 2_500_000_000) by (nonlinear_arith)
                requires
                    0 <= cx <= 50_000,
                    0 <= cy <= 50_000,
            ;
        }
        let longest_sq = cx * cx + cy * cy;
        Grid { height, width, center, longest_sq }
    }

    pub fn height(&self) -> (r: u32)
        ensures
            r == self.height,
    {
        self.height
    }

    pub fn width(&self) -> (r: u32)
        ensures
            r == self.width,
    {
        self.width
    }

    /// The squared distance from the center to a corner.
    pub fn longest_sq(&self) -> (r: i64)
        ensures
            r == self.longest_sq,
    {
        self.longest_sq
    }

    /// Squared Euclidean distance of `location` from the center.
    pub fn distance_sq_from_center(&self, location: Coord) -> (r: i64)
        requires
            self.wf(),
            in_bounds(*self, location),
        ensures
            r == spec_dist_sq(*self, location),
            0 <= r <= 20_000_000_000,
    {
        let dx: i64 = location.x as i64 - self.center.x as i64;
        let dy: i64 = location.y as i64 - self.center.y as i64;
        proof {
            assert(dx * dx <= 10_000_000_000 && dy * dy <= 10_000_000_000) by (nonlinear_arith)
                requires
                    -100_000 <= dx <= 100_000,
                    -100_000 <= dy <= 100_000,
            ;
            assert(dx * dx >= 0 && dy * dy >= 0) by (nonlinear_arith);
        }
        dx * dx + dy * dy
    }

    /// Positional score of a cell: being near the center earns points.
    pub fn distance_points(&self, location: Coord) -> (r: i64)
        requires
            self.wf(),
            in_bounds(*self, location),
        ensures
            r == spec_distance_points(*self, location),
            -20_000_000_000 <= r <= 5_000_000_000,
    {
        let d = self.distance_sq_from_center(location);
        proof {
            let cx = self.center.x as int;
            let cy = self.center.y as int;
            assert(0 <= cx * cx <= 2_500_000_000 && 0 <= cy * cy <= 2_500_000_000)
                by (nonlinear_arith)
                requires
                    0 <= cx <= 50_000,
                    0 <= cy <= 50_000,
            ;
        }
        self.longest_sq - d
    }

    /// The grid's extent as a coordinate.
    pub fn size(&self) -> (r: Coord)
        requires
            self.wf(),
        ensures
            r.x == self.width,
            r.y == self.height,
    {
        Coord { x: self.width as i32, y: self.height as i32 }
    }

    /// Whether `coord` lies off the grid.
    pub fn out_of_bounds(&self, coord: Coord) -> (r: bool)
        requires
            self.wf(),
        ensures
            r == !in_bounds(*self, coord),
    {
        coord.x < 0 || coord.x >= (self.width as i32) || coord.y < 0 || coord.y >= (
        self.height as i32)
    }
}

} // verus!
