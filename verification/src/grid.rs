//! Coordinates, compass directions and integer distance measures.

use vstd::prelude::*;

verus! {

/// A position on the grid: a signed two-dimensional integer pair, compared
/// and hashed by value. It serves both as the key of the tile map and as an
/// actor position.
#[derive(Clone, Copy, PartialEq, Eq, Structural, Hash, Debug)]
pub struct Coordinate {
    pub x: i32,
    pub y: i32,
}

impl Coordinate {
    /// The mathematical point this coordinate stands for.
    pub open spec fn pt(self) -> (int, int) {
        (self.x as int, self.y as int)
    }

    pub fn new(x: i32, y: i32) -> (c: Coordinate)
        ensures
            c.x == x,
            c.y == y,
    {
        Coordinate { x, y }
    }
}

/// The eight compass directions. North points towards positive `y`, east
/// towards positive `x`.
#[derive(Clone, Copy, PartialEq, Eq, Structural, Debug)]
pub enum Direction {
    N,
    NE,
    E,
    SE,
    S,
    SW,
    W,
    NW,
}

/// The unit delta a direction stands for.
pub open spec fn spec_direction_delta(d: Direction) -> (int, int) {
    match d {
        Direction::N => (0, 1),
        Direction::NE => (1, 1),
        Direction::E => (1, 0),
        Direction::SE => (1, -1),
        Direction::S => (0, -1),
        Direction::SW => (-1, -1),
        Direction::W => (-1, 0),
        Direction::NW => (-1, 1),
    }
}

/// The direction a delta stands for; only the eight unit deltas convert.
pub open spec fn spec_delta_direction(dx: int, dy: int) -> Option<Direction> {
    if dx == 0 && dy == 1 {
        Some(Direction::N)
    } else if dx == 1 && dy == 1 {
        Some(Direction::NE)
    } else if dx == 1 && dy == 0 {
        Some(Direction::E)
    } else if dx == 1 && dy == -1 {
        Some(Direction::SE)
    } else if dx == 0 && dy == -1 {
        Some(Direction::S)
    } else if dx == -1 && dy == -1 {
        Some(Direction::SW)
    } else if dx == -1 && dy == 0 {
        Some(Direction::W)
    } else if dx == -1 && dy == 1 {
        Some(Direction::NW)
    } else {
        None
    }
}

/// Convert a direction to its unit coordinate delta.
pub fn direction_to_delta(d: Direction) -> (r: Coordinate)
    ensures
        r.pt() == spec_direction_delta(d),
{
    match d {
        Direction::N => Coordinate { x: 0, y: 1 },
        Direction::NE => Coordinate { x: 1, y: 1 },
        Direction::E => Coordinate { x: 1, y: 0 },
        Direction::SE => Coordinate { x: 1, y: -1 },
        Direction::S => Coordinate { x: 0, y: -1 },
        Direction::SW => Coordinate { x: -1, y: -1 },
        Direction::W => Coordinate { x: -1, y: 0 },
        Direction::NW => Coordinate { x: -1, y: 1 },
    }
}

/// Convert a coordinate delta back to a direction; any delta that is not one
/// of the eight unit deltas is rejected.
pub fn delta_to_direction(c: Coordinate) -> (r: Option<Direction>)
    ensures
        r == spec_delta_direction(c.x as int, c.y as int),
{
    if c.x == 0 && c.y == 1 {
        Some(Direction::N)
    } else if c.x == 1 && c.y == 1 {
        Some(Direction::NE)
    } else if c.x == 1 && c.y == 0 {
        Some(Direction::E)
    } else if c.x == 1 && c.y == -1 {
        Some(Direction::SE)
    } else if c.x == 0 && c.y == -1 {
        Some(Direction::S)
    } else if c.x == -1 && c.y == -1 {
        Some(Direction::SW)
    } else if c.x == -1 && c.y == 0 {
        Some(Direction::W)
    } else if c.x == -1 && c.y == 1 {
        Some(Direction::NW)
    } else {
        None
    }
}

/// Law: converting a direction to its delta and back is the identity.
pub proof fn lemma_direction_round_trip(d: Direction)
    ensures
        spec_delta_direction(spec_direction_delta(d).0, spec_direction_delta(d).1) == Some(d),
{
}

/// Law: a delta converts to a direction exactly when it is one of the eight
/// unit deltas, and the two conversions invert each other.
pub proof fn lemma_delta_round_trip(dx: int, dy: int)
    ensures
        spec_delta_direction(dx, dy) matches Some(d) ==> spec_direction_delta(d) == (dx, dy),
        spec_delta_direction(dx, dy) is None <==> !(exists|d: Direction|
            spec_direction_delta(d) == (dx, dy)),
{
    if exists|d: Direction| spec_direction_delta(d) == (dx, dy) {
        let d = choose|d: Direction| spec_direction_delta(d) == (dx, dy);
        lemma_direction_round_trip(d);
    }
}

/// The neighbouring coordinate one step in the given direction, absent when
/// the step would leave the representable coordinate range.
pub open spec fn spec_neighbor(c: Coordinate, d: Direction) -> Option<Coordinate> {
    let dx = spec_direction_delta(d).0;
    let dy = spec_direction_delta(d).1;
    if i32::MIN <= c.x + dx <= i32::MAX && i32::MIN <= c.y + dy <= i32::MAX {
        Some(Coordinate { x: (c.x + dx) as i32, y: (c.y + dy) as i32 })
    } else {
        None
    }
}

/// One step from `c` in direction `d`, rejecting coordinate overflow.
pub fn neighbor(c: Coordinate, d: Direction) -> (r: Option<Coordinate>)
    ensures
        r == spec_neighbor(c, d),
{
    let delta = direction_to_delta(d);
    let nx: i64 = c.x as i64 + delta.x as i64;
    let ny: i64 = c.y as i64 + delta.y as i64;
    if i32::MIN as i64 <= nx && nx <= i32::MAX as i64 && i32::MIN as i64 <= ny && ny <= i32::MAX as i64 {
        Some(Coordinate { x: nx as i32, y: ny as i32 })
    } else {
        None
    }
}

/// Squared straight-line distance between two points.
pub open spec fn dist2(a: (int, int), b: (int, int)) -> int {
    (a.0 - b.0) * (a.0 - b.0) + (a.1 - b.1) * (a.1 - b.1)
}

/// Squaring is monotone in the absolute value.
pub proof fn lemma_sq_mono(x: int, y: int)
    by (nonlinear_arith)
    requires
        (-y <= x <= y) || (y <= x <= -y),
    ensures
        x * x <= y * y,
{
}

/// A square root bound: a number whose square is at most `r * r` lies in
/// `[-r, r]`.
pub proof fn lemma_sq_root_bound(x: int, r: int)
    by (nonlinear_arith)
    requires
        0 <= r,
        x * x <= r * r,
    ensures
        -r <= x <= r,
{
}

/// A square is non-negative, and bounded by the square of any bound on the
/// absolute value.
pub proof fn lemma_sq_bounds(x: int, b: int)
    by (nonlinear_arith)
    requires
        -b <= x <= b,
    ensures
        0 <= x * x <= b * b,
{
}

/// Squared straight-line distance, computed exactly in 128-bit arithmetic.
pub fn distance_squared(a: Coordinate, b: Coordinate) -> (r: i128)
    ensures
        r == dist2(a.pt(), b.pt()),
{
    let dx: i128 = a.x as i128 - b.x as i128;
    let dy: i128 = a.y as i128 - b.y as i128;
    proof {
        lemma_sq_bounds(dx as int, 0x1_0000_0000);
        lemma_sq_bounds(dy as int, 0x1_0000_0000);
    }
    dx * dx + dy * dy
}

/// Whether `c` lies within straight-line distance `radius` of `center`,
/// decided on squared distances.
pub fn within_radius(center: Coordinate, c: Coordinate, radius: u16) -> (r: bool)
    ensures
        r == (dist2(center.pt(), c.pt()) <= radius * radius),
{
    proof {
        lemma_sq_bounds(radius as int, 0x1_0000);
    }
    distance_squared(center, c) <= radius as i128 * radius as i128
}

/// Absolute value.
pub open spec fn abs_of(x: int) -> int {
    if x < 0 {
        -x
    } else {
        x
    }
}

/// Maximum of two integers.
pub open spec fn max_of(a: int, b: int) -> int {
    if a >= b {
        a
    } else {
        b
    }
}

/// Sign of an integer: `-1`, `0` or `1`.
pub open spec fn sign_of(x: int) -> int {
    if x > 0 {
        1
    } else if x < 0 {
        -1
    } else {
        0
    }
}

/// Chessboard distance between two points: the number of king moves between
/// them.
pub open spec fn cheb_dist(a: (int, int), b: (int, int)) -> int {
    max_of(abs_of(a.0 - b.0), abs_of(a.1 - b.1))
}

/// One king move from `a` towards `b`: each component moves one unit towards
/// the target when it differs.
pub open spec fn step_toward(a: (int, int), b: (int, int)) -> (int, int) {
    (a.0 + sign_of(b.0 - a.0), a.1 + sign_of(b.1 - a.1))
}

} // verus!
