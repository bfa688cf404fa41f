//! Cells, board sizes, directions and movement on a toroidal board.

use vstd::prelude::*;
use vstd::arithmetic::div_mod::{lemma_mod_self_0, lemma_small_mod};

verus! {

/// The width (`x`) and height (`y`) of a board.
#[derive(Clone, Copy, PartialEq, Eq, Debug, Structural)]
pub struct Size {
    pub x: usize,
    pub y: usize,
}

/// A cell of the board, 0-based; `y` grows upwards.
#[derive(Clone, Copy, PartialEq, Eq, Debug, Structural)]
pub struct Position {
    pub x: usize,
    pub y: usize,
}

#[derive(Clone, Copy, PartialEq, Eq, Debug, Structural)]
pub enum Direction {
    Up,
    Down,
    Left,
    Right,
}

impl Size {
    /// A board with at least one cell along each axis.
    pub open spec fn is_valid(self) -> bool {
        self.x >= 1 && self.y >= 1
    }

    /// `p` lies on a board of this size.
    pub open spec fn holds(self, p: Position) -> bool {
        p.x < self.x && p.y < self.y
    }
}

impl From<[usize; 2]> for Size {
    fn from(d: [usize; 2]) -> (r: Size)
        ensures
            r == (Size { x: d@[0], y: d@[1] }),
    {
        Size { x: d[0], y: d[1] }
    }
}

impl vstd::std_specs::convert::FromSpecImpl<[usize; 2]> for Size {
    open spec fn obeys_from_spec() -> bool {
        true
    }

    open spec fn from_spec(d: [usize; 2]) -> Size {
        Size { x: d@[0], y: d@[1] }
    }
}

impl From<[usize; 2]> for Position {
    fn from(d: [usize; 2]) -> (r: Position)
        ensures
            r == (Position { x: d@[0], y: d@[1] }),
    {
        Position { x: d[0], y: d[1] }
    }
}

impl vstd::std_specs::convert::FromSpecImpl<[usize; 2]> for Position {
    open spec fn obeys_from_spec() -> bool {
        true
    }

    open spec fn from_spec(d: [usize; 2]) -> Position {
        Position { x: d@[0], y: d@[1] }
    }
}

impl From<(usize, usize)> for Size {
    fn from(d: (usize, usize)) -> (r: Size)
        ensures
            r == (Size { x: d.0, y: d.1 }),
    {
        Size { x: d.0, y: d.1 }
    }
}

impl vstd::std_specs::convert::FromSpecImpl<(usize, usize)> for Size {
    open spec fn obeys_from_spec() -> bool {
        true
    }

    open spec fn from_spec(d: (usize, usize)) -> Size {
        Size { x: d.0, y: d.1 }
    }
}

impl From<(usize, usize)> for Position {
    fn from(d: (usize, usize)) -> (r: Position)
        ensures
            r == (Position { x: d.0, y: d.1 }),
    {
        Position { x: d.0, y: d.1 }
    }
}

impl vstd::std_specs::convert::FromSpecImpl<(usize, usize)> for Position {
    open spec fn obeys_from_spec() -> bool {
        true
    }

    open spec fn from_spec(d: (usize, usize)) -> Position {
        Position { x: d.0, y: d.1 }
    }
}

impl From<Position> for (usize, usize) {
    fn from(p: Position) -> (r: (usize, usize))
        ensures
            r == (p.x, p.y),
    {
        (p.x, p.y)
    }
}

impl vstd::std_specs::convert::FromSpecImpl<Position> for (usize, usize) {
    open spec fn obeys_from_spec() -> bool {
        true
    }

    open spec fn from_spec(p: Position) -> (usize, usize) {
        (p.x, p.y)
    }
}

impl Direction {
    pub open spec fn spec_opposite(self) -> Direction {
        match self {
            Direction::Up => Direction::Down,
            Direction::Down => Direction::Up,
            Direction::Left => Direction::Right,
            Direction::Right => Direction::Left,
        }
    }

    /// The direction that points the other way.
    pub fn opposite(&self) -> (r: Direction)
        ensures
            r == self.spec_opposite(),
            r.spec_opposite() == *self,
            r != *self,
    {
        match self {
            Direction::Up => Direction::Down,
            Direction::Down => Direction::Up,
            Direction::Left => Direction::Right,
            Direction::Right => Direction::Left,
        }
    }
}

/// The cell one step from `p` towards `d`, with no wrapping.
pub open spec fn step(p: Position, d: Direction) -> Position {
    match d {
        Direction::Up => Position { x: p.x, y: (p.y + 1) as usize },
        Direction::Down => Position { x: p.x, y: (p.y - 1) as usize },
        Direction::Right => Position { x: (p.x + 1) as usize, y: p.y },
        Direction::Left => Position { x: (p.x - 1) as usize, y: p.y },
    }
}

/// `step(p, d)` neither underflows nor overflows.
pub open spec fn can_step(p: Position, d: Direction) -> bool {
    match d {
        Direction::Up => p.y < usize::MAX,
        Direction::Down => p.y > 0,
        Direction::Right => p.x < usize::MAX,
        Direction::Left => p.x > 0,
    }
}

/// The cell one step from `p` towards `d` on a board of `size` whose
/// opposite edges are joined.
pub open spec fn wrapped_step(p: Position, d: Direction, size: Size) -> Position {
    match d {
        Direction::Up => Position { x: p.x, y: ((p.y + 1) % (size.y as int)) as usize },
        Direction::Down => Position {
            x: p.x,
            y: ((p.y + size.y - 1) % (size.y as int)) as usize,
        },
        Direction::Right => Position { x: ((p.x + 1) % (size.x as int)) as usize, y: p.y },
        Direction::Left => Position {
            x: ((p.x + size.x - 1) % (size.x as int)) as usize,
            y: p.y,
        },
    }
}

/// `p` sits on the edge of the board that `d` leads off.
pub open spec fn at_edge(p: Position, d: Direction, size: Size) -> bool {
    match d {
        Direction::Up => p.y == size.y - 1,
        Direction::Down => p.y == 0,
        Direction::Right => p.x == size.x - 1,
        Direction::Left => p.x == 0,
    }
}

/// Away from the edge it leads off, a wrapped step is a plain step; on that
/// edge it lands on the opposite edge.
pub proof fn lemma_wrapped_step(p: Position, d: Direction, size: Size)
    requires
        size.is_valid(),
        size.holds(p),
    ensures
        size.holds(wrapped_step(p, d, size)),
        !at_edge(p, d, size) ==> can_step(p, d) && wrapped_step(p, d, size) == step(p, d),
        at_edge(p, d, size) ==> wrapped_step(p, d, size) == match d {
            Direction::Up => Position { x: p.x, y: 0 },
            Direction::Down => Position { x: p.x, y: (size.y - 1) as usize },
            Direction::Right => Position { x: 0, y: p.y },
            Direction::Left => Position { x: (size.x - 1) as usize, y: p.y },
        },
{
    let sx = size.x as int;
    let sy = size.y as int;
    match d {
        Direction::Up => {
            if p.y + 1 < sy {
                lemma_small_mod((p.y + 1) as nat, sy as nat);
            } else {
                lemma_mod_self_0(sy);
            }
        },
        Direction::Down => {
            if p.y == 0 {
                lemma_small_mod((sy - 1) as nat, sy as nat);
            } else {
                lemma_small_mod((p.y - 1) as nat, sy as nat);
                assert((p.y + sy - 1) % sy == (p.y - 1) as int) by {
                    vstd::arithmetic::div_mod::lemma_mod_add_multiples_vanish((p.y - 1) as int, sy);
                }
            }
        },
        Direction::Right => {
            if p.x + 1 < sx {
                lemma_small_mod((p.x + 1) as nat, sx as nat);
            } else {
                lemma_mod_self_0(sx);
            }
        },
        Direction::Left => {
            if p.x == 0 {
                lemma_small_mod((sx - 1) as nat, sx as nat);
            } else {
                lemma_small_mod((p.x - 1) as nat, sx as nat);
                assert((p.x + sx - 1) % sx == (p.x - 1) as int) by {
                    vstd::arithmetic::div_mod::lemma_mod_add_multiples_vanish((p.x - 1) as int, sx);
                }
            }
        },
    }
}

impl Position {
    /// Moves one cell towards `d` without wrapping.
    pub fn shifted(self, d: Direction) -> (r: Position)
        requires
            can_step(self, d),
        ensures
            r == step(self, d),
    {
        match d {
            Direction::Up => Position { x: self.x, y: self.y + 1 },
            Direction::Down => Position { x: self.x, y: self.y - 1 },
            Direction::Right => Position { x: self.x + 1, y: self.y },
            Direction::Left => Position { x: self.x - 1, y: self.y },
        }
    }

    /// The componentwise sum of two positions.
    pub fn plus(self, o: Position) -> (r: Position)
        requires
            self.x + o.x <= usize::MAX,
            self.y + o.y <= usize::MAX,
        ensures
            r.x == self.x + o.x,
            r.y == self.y + o.y,
    {
        Position { x: self.x + o.x, y: self.y + o.y }
    }
}

} // verus!
