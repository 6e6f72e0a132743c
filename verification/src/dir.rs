//! The four cardinal directions on the tile grid.

use vstd::prelude::*;

verus! {

/// A cardinal direction. `Up` decreases `y`, `Down` increases it; the `y`
/// axis points downward, as on a screen.
#[derive(Debug, Clone, Copy, PartialEq, Eq, Structural)]
pub enum Dir {
    Up,
    Right,
    Down,
    Left,
}

impl Dir {
    pub open spec fn num_spec(self) -> int {
        match self {
            Dir::Up => 0,
            Dir::Right => 1,
            Dir::Down => 2,
            Dir::Left => 3,
        }
    }

    /// The index of this direction in clockwise order starting at `Up`.
    pub fn num(self) -> (r: usize)
        ensures
            r == self.num_spec(),
    {
        match self {
            Dir::Up => 0,
            Dir::Right => 1,
            Dir::Down => 2,
            Dir::Left => 3,
        }
    }

    /// The direction with the given index; the inverse of `num`.
    pub fn from_num(n: usize) -> (r: Dir)
        requires
            n < 4,
        ensures
            r.num_spec() == n,
    {
        match n {
            0 => Dir::Up,
            1 => Dir::Right,
            2 => Dir::Down,
            _ => Dir::Left,
        }
    }

    pub fn clockwise(self) -> (r: Dir)
        ensures
            r.num_spec() == (self.num_spec() + 1) % 4,
    {
        match self {
            Dir::Up => Dir::Right,
            Dir::Right => Dir::Down,
            Dir::Down => Dir::Left,
            Dir::Left => Dir::Up,
        }
    }

    pub fn counter_clockwise(self) -> (r: Dir)
        ensures
            r.num_spec() == (self.num_spec() + 3) % 4,
    {
        match self {
            Dir::Up => Dir::Left,
            Dir::Right => Dir::Up,
            Dir::Down => Dir::Right,
            Dir::Left => Dir::Down,
        }
    }

    /// The (dx, dy) step this direction takes on the grid.
    pub open spec fn delta_spec(self) -> (int, int) {
        match self {
            Dir::Up => (0int, -1int),
            Dir::Right => (1int, 0int),
            Dir::Down => (0int, 1int),
            Dir::Left => (-1int, 0int),
        }
    }

    pub fn as_delta(self) -> (r: (isize, isize))
        ensures
            r.0 as int == self.delta_spec().0,
            r.1 as int == self.delta_spec().1,
    {
        match self {
            Dir::Up => (0, -1),
            Dir::Right => (1, 0),
            Dir::Down => (0, 1),
            Dir::Left => (-1, 0),
        }
    }

    /// Every direction once, in the fixed scan order `Up, Right, Down, Left`.
    pub fn all() -> (r: Vec<Dir>)
        ensures
            r@ == seq![Dir::Up, Dir::Right, Dir::Down, Dir::Left],
    {
        let mut v: Vec<Dir> = Vec::new();
        v.push(Dir::Up);
        v.push(Dir::Right);
        v.push(Dir::Down);
        v.push(Dir::Left);
        proof {
            assert(v@ =~= seq![Dir::Up, Dir::Right, Dir::Down, Dir::Left]);
        }
        v
    }
}

} // verus!
