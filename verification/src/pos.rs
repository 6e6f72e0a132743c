//! Integer grid coordinates.

use vstd::prelude::*;

verus! {

/// A tile coordinate on the terrain grid.
#[derive(Debug, Clone, Copy, Hash, PartialEq, Eq, Structural)]
pub struct TilePos {
    pub x: usize,
    pub y: usize,
}

impl TilePos {
    pub fn new(x: usize, y: usize) -> (r: TilePos)
        ensures
            r.x == x,
            r.y == y,
    {
        TilePos { x, y }
    }

    /// The Manhattan distance between two tiles, as a mathematical integer.
    pub open spec fn dist_spec(self, other: TilePos) -> int {
        let dx = if self.x < other.x {
            other.x - self.x
        } else {
            self.x - other.x
        };
        let dy = if self.y < other.y {
            other.y - self.y
        } else {
            self.y - other.y
        };
        dx + dy
    }

    /// The Manhattan distance between two tiles.
    pub fn dist(self, other: TilePos) -> (r: usize)
        requires
            self.dist_spec(other) <= usize::MAX,
        ensures
            r == self.dist_spec(other),
    {
        let dx = if self.x < other.x {
            other.x - self.x
        } else {
            self.x - other.x
        };
        let dy = if self.y < other.y {
            other.y - self.y
        } else {
            self.y - other.y
        };
        dx + dy
    }

    /// A cursor over the axis-aligned rectangle spanned by `self` and
    /// `other`, both corners included in the span.
    pub fn rect_iter(self, other: TilePos) -> (r: RectIter)
        ensures
            r.wf(),
            r.tl() == (TilePos {
                x: if self.x < other.x { self.x } else { other.x },
                y: if self.y < other.y { self.y } else { other.y },
            }),
            r.br() == (TilePos {
                x: if self.x < other.x { other.x } else { self.x },
                y: if self.y < other.y { other.y } else { self.y },
            }),
            r.current() == r.tl(),
    {
        let tl = TilePos {
            x: if self.x < other.x { self.x } else { other.x },
            y: if self.y < other.y { self.y } else { other.y },
        };
        let br = TilePos {
            x: if self.x < other.x { other.x } else { self.x },
            y: if self.y < other.y { other.y } else { self.y },
        };
        RectIter { tl, br, current: tl }
    }
}

impl Default for TilePos {
    fn default() -> (r: TilePos)
        ensures
            r.x == 0,
            r.y == 0,
    {
        TilePos { x: 0, y: 0 }
    }
}

/// Walks the tiles of a rectangle in row-major order, starting at the
/// top-left corner. The bottom-right corner itself is the stop marker and is
/// not yielded.
pub struct RectIter {
    tl: TilePos,
    br: TilePos,
    current: TilePos,
}

impl RectIter {
    pub closed spec fn tl(self) -> TilePos {
        self.tl
    }

    pub closed spec fn br(self) -> TilePos {
        self.br
    }

    pub closed spec fn current(self) -> TilePos {
        self.current
    }

    pub closed spec fn wf(self) -> bool {
        &&& self.tl.x <= self.current.x <= self.br.x
        &&& self.tl.y <= self.current.y <= self.br.y
    }

    /// Yields the cursor tile and advances by one column, wrapping to the
    /// next row at the right edge; the bottom-right corner ends the walk.
    pub fn next(&mut self) -> (r: Option<TilePos>)
        requires
            old(self).wf(),
        ensures
            final(self).wf(),
            final(self).tl() == old(self).tl(),
            final(self).br() == old(self).br(),
            r == (if old(self).current() == old(self).br() {
                Option::<TilePos>::None
            } else {
                Option::<TilePos>::Some(old(self).current())
            }),
            (if old(self).current() == old(self).br() {
                final(self).current() == old(self).current()
            } else if old(self).current().x == old(self).br().x {
                final(self).current().x == old(self).tl().x && final(self).current().y
                    == old(self).current().y + 1
            } else {
                final(self).current().x == old(self).current().x + 1 && final(self).current().y
                    == old(self).current().y
            }),
    {
        let ret = self.current;
        if self.current.x == self.br.x {
            if self.current.y == self.br.y {
                return None;
            }
            self.current.x = self.tl.x;
            self.current.y = self.current.y + 1;
        } else {
            self.current.x = self.current.x + 1;
        }
        Some(ret)
    }
}

} // verus!
