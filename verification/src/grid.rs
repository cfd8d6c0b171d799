//! The torus: cells, directions, wrap-around and the distance between cells.

use vstd::prelude::*;

verus! {

/// A position on the grid: column first, row second.
pub type Cell = (usize, usize);

/// One of the four moves. North and South change the row, East and West the
/// column.
#[derive(Debug, Clone, Copy, PartialEq, Eq, Structural)]
pub enum Direction {
    North,
    South,
    East,
    West,
}

/// Both sides of the grid are positive.
pub open spec fn valid_size(size: (usize, usize)) -> bool {
    size.0 > 0 && size.1 > 0
}

/// The cell lies on the grid.
pub open spec fn in_bounds(size: (usize, usize), cell: Cell) -> bool {
    cell.0 < size.0 && cell.1 < size.1
}

/// A coordinate brought back onto an axis of length `bound`: one that fell
/// off the low end lands on the last position, one that fell off the high
/// end lands on the first.
pub open spec fn wrapped(coordinate: int, bound: usize) -> usize {
    if coordinate < 0 {
        (bound - 1) as usize
    } else if coordinate >= bound {
        0
    } else {
        coordinate as usize
    }
}

/// The distance between two positions on a ring of length `bound`: the
/// shorter of the two ways round.
pub open spec fn axis_gap(bound: int, a: int, b: int) -> int {
    let raw = if a > b { a - b } else { b - a };
    if raw <= bound - raw { raw } else { bound - raw }
}

/// The Manhattan distance on the torus.
pub open spec fn torus_distance(size: (usize, usize), a: Cell, b: Cell) -> int {
    axis_gap(size.0 as int, a.0 as int, b.0 as int) + axis_gap(size.1 as int, a.1 as int, b.1 as int)
}

/// The cell one step from `from` in the given direction.
pub open spec fn moved(size: (usize, usize), from: Cell, direction: Direction) -> Cell {
    match direction {
        Direction::North => (wrapped(from.0 as int, size.0), wrapped(from.1 - 1, size.1)),
        Direction::South => (wrapped(from.0 as int, size.0), wrapped(from.1 + 1, size.1)),
        Direction::East => (wrapped(from.0 + 1, size.0), wrapped(from.1 as int, size.1)),
        Direction::West => (wrapped(from.0 - 1, size.0), wrapped(from.1 as int, size.1)),
    }
}

/// Brings a coordinate back onto an axis of length `bound`.
pub fn wrap(coordinate: i128, bound: usize) -> (r: usize)
    requires
        bound > 0,
    ensures
        r == wrapped(coordinate as int, bound),
        r < bound,
{
    if coordinate < 0 {
        bound - 1
    } else if coordinate >= bound as i128 {
        0
    } else {
        coordinate as usize
    }
}

/// Wrapping lands on the axis, and wrapping again changes nothing.
pub proof fn lemma_wrap_idempotent(coordinate: int, bound: usize)
    requires
        bound > 0,
    ensures
        0 <= wrapped(coordinate, bound) < bound,
        wrapped(wrapped(coordinate, bound) as int, bound) == wrapped(coordinate, bound),
{
}

/// The distance between two positions on a ring of length `bound`.
pub fn axis_distance(bound: usize, a: usize, b: usize) -> (r: usize)
    requires
        a < bound,
        b < bound,
    ensures
        r == axis_gap(bound as int, a as int, b as int),
        r <= bound / 2,
{
    let raw: usize = if a > b { a - b } else { b - a };
    let other: usize = bound - raw;
    if raw <= other { raw } else { other }
}

/// The Manhattan distance between two cells of the torus.
pub fn distance(size: (usize, usize), a: Cell, b: Cell) -> (r: usize)
    requires
        in_bounds(size, a),
        in_bounds(size, b),
    ensures
        r == torus_distance(size, a, b),
        r <= size.0 / 2 + size.1 / 2,
{
    axis_distance(size.0, a.0, b.0) + axis_distance(size.1, a.1, b.1)
}

/// On each axis the distance is the same in both directions and never more
/// than half the ring.
pub proof fn lemma_axis_gap_symmetric_and_bounded(bound: int, a: int, b: int)
    requires
        0 <= a < bound,
        0 <= b < bound,
    ensures
        axis_gap(bound, a, b) == axis_gap(bound, b, a),
        0 <= axis_gap(bound, a, b) <= bound / 2,
{
}

/// The distance on the torus is the same in both directions, and each axis
/// contributes at most half its length.
pub proof fn lemma_distance_symmetric_and_bounded(size: (usize, usize), a: Cell, b: Cell)
    requires
        in_bounds(size, a),
        in_bounds(size, b),
    ensures
        torus_distance(size, a, b) == torus_distance(size, b, a),
        0 <= torus_distance(size, a, b) <= size.0 / 2 + size.1 / 2,
{
    lemma_axis_gap_symmetric_and_bounded(size.0 as int, a.0 as int, b.0 as int);
    lemma_axis_gap_symmetric_and_bounded(size.1 as int, a.1 as int, b.1 as int);
}

/// The cell one step from `from` in the given direction, wrapped at the
/// edges.
pub fn step_from(size: (usize, usize), from: Cell, direction: Direction) -> (r: Cell)
    requires
        valid_size(size),
    ensures
        r == moved(size, from, direction),
        in_bounds(size, r),
{
    let x: i128 = from.0 as i128;
    let y: i128 = from.1 as i128;
    match direction {
        Direction::North => (wrap(x, size.0), wrap(y - 1, size.1)),
        Direction::South => (wrap(x, size.0), wrap(y + 1, size.1)),
        Direction::East => (wrap(x + 1, size.0), wrap(y, size.1)),
        Direction::West => (wrap(x - 1, size.0), wrap(y, size.1)),
    }
}

/// A step never leaves the grid.
pub proof fn lemma_moved_in_bounds(size: (usize, usize), from: Cell, direction: Direction)
    requires
        valid_size(size),
    ensures
        in_bounds(size, moved(size, from, direction)),
{
}

} // verus!
