use vstd::prelude::*;

verus! {

/// A position on the map grid.
#[derive(Clone, Copy, Debug, PartialEq, Eq, Structural)]
pub struct Coord {
    pub x: i32,
    pub y: i32,
}

/// The dimensions of the map grid.
#[derive(Clone, Copy, Debug, PartialEq, Eq, Structural)]
pub struct Size {
    pub width: u32,
    pub height: u32,
}

/// Largest side of a map accepted by the library.
pub const MAX_SIDE: u32 = 65535;

/// One of the four cardinal directions.
#[derive(Clone, Copy, Debug, PartialEq, Eq, Structural)]
pub enum CardinalDirection {
    North,
    East,
    South,
    West,
}

impl Coord {
    pub fn new(x: i32, y: i32) -> (r: Coord)
        ensures
            r == (Coord { x, y }),
    {
        Coord { x, y }
    }
}

impl Size {
    pub open spec fn wf(self) -> bool {
        0 < self.width <= MAX_SIDE && 0 < self.height <= MAX_SIDE
    }

    pub open spec fn count(self) -> nat {
        (self.width * self.height) as nat
    }

    pub open spec fn contains(self, c: Coord) -> bool {
        0 <= c.x < self.width && 0 <= c.y < self.height
    }

    /// Row-major position of an in-bounds coordinate.
    pub open spec fn index_of(self, c: Coord) -> int {
        c.y * self.width + c.x
    }

    /// The coordinate stored at a row-major position.
    pub open spec fn coord_of(self, i: int) -> Coord {
        Coord { x: (i % self.width as int) as i32, y: (i / self.width as int) as i32 }
    }

    pub fn new(width: u32, height: u32) -> (r: Size)
        ensures
            r == (Size { width, height }),
    {
        Size { width, height }
    }

    pub fn num_cells(&self) -> (r: usize)
        requires
            self.wf(),
        ensures
            r == self.count(),
    {
        proof {
            lemma_count_bound(*self);
        }
        (self.width as usize) * (self.height as usize)
    }

    pub fn is_valid(&self, c: Coord) -> (r: bool)
        ensures
            r == self.contains(c),
    {
        0 <= c.x && (c.x as i64) < (self.width as i64) && 0 <= c.y && (c.y as i64) < (
        self.height as i64)
    }

    pub fn index(&self, c: Coord) -> (r: usize)
        requires
            self.wf(),
            self.contains(c),
        ensures
            r as int == self.index_of(c),
            r < self.count(),
            self.coord_of(r as int) == c,
    {
        proof {
            lemma_index_coord(*self, c);
            lemma_count_bound(*self);
        }
        let y = c.y as usize;
        let w = self.width as usize;
        assert(y * w == c.y * self.width);
        y * w + (c.x as usize)
    }

    pub fn coord(&self, i: usize) -> (r: Coord)
        requires
            self.wf(),
            i < self.count(),
        ensures
            r == self.coord_of(i as int),
            self.contains(r),
            self.index_of(r) == i,
    {
        proof {
            lemma_coord_index(*self, i as int);
        }
        let w = self.width as usize;
        Coord { x: (i % w) as i32, y: (i / w) as i32 }
    }
}

pub proof fn lemma_count_bound(s: Size)
    requires
        s.wf(),
    ensures
        s.count() <= (MAX_SIDE * MAX_SIDE) as nat,
        s.count() > 0,
{
    assert(s.width * s.height <= MAX_SIDE * MAX_SIDE) by (nonlinear_arith)
        requires
            0 < s.width <= MAX_SIDE,
            0 < s.height <= MAX_SIDE,
    ;
    assert(s.width * s.height > 0) by (nonlinear_arith)
        requires
            0 < s.width,
            0 < s.height,
    ;
}

pub proof fn lemma_index_coord(s: Size, c: Coord)
    requires
        s.wf(),
        s.contains(c),
    ensures
        0 <= s.index_of(c) < s.count(),
        s.coord_of(s.index_of(c)) == c,
{
    let w = s.width as int;
    let h = s.height as int;
    let i = c.y * w + c.x;
    assert(0 <= c.y * w <= (h - 1) * w) by (nonlinear_arith)
        requires
            0 <= c.y < h,
            w > 0,
    ;
    assert((h - 1) * w + w == h * w) by (nonlinear_arith);
    vstd::arithmetic::div_mod::lemma_fundamental_div_mod_converse(i, w, c.y as int, c.x as int);
}

pub proof fn lemma_coord_index(s: Size, i: int)
    requires
        s.wf(),
        0 <= i < s.count(),
    ensures
        s.contains(s.coord_of(i)),
        s.index_of(s.coord_of(i)) == i,
{
    let w = s.width as int;
    let h = s.height as int;
    vstd::arithmetic::div_mod::lemma_fundamental_div_mod(i, w);
    let q = i / w;
    let r = i % w;
    assert(0 <= r < w) by {
        vstd::arithmetic::div_mod::lemma_mod_bound(i, w);
    }
    assert(0 <= q < h) by (nonlinear_arith)
        requires
            i == w * q + r,
            0 <= r < w,
            0 <= i < h * w,
            w > 0,
    ;
    assert(w * q == q * w) by (nonlinear_arith);
}

/// Chebyshev distance: the number of king moves between two coordinates.
pub open spec fn chebyshev(a: Coord, b: Coord) -> int {
    let dx = if a.x >= b.x { a.x - b.x } else { b.x - a.x };
    let dy = if a.y >= b.y { a.y - b.y } else { b.y - a.y };
    if dx >= dy { dx } else { dy }
}

/// Computes the Chebyshev distance between two coordinates.
pub fn chebyshev_distance(a: Coord, b: Coord) -> (r: u64)
    ensures
        r == chebyshev(a, b),
{
    let dx: i64 = if a.x >= b.x { a.x as i64 - b.x as i64 } else { b.x as i64 - a.x as i64 };
    let dy: i64 = if a.y >= b.y { a.y as i64 - b.y as i64 } else { b.y as i64 - a.y as i64 };
    if dx >= dy { dx as u64 } else { dy as u64 }
}

impl CardinalDirection {
    pub open spec fn spec_offset(self) -> (int, int) {
        match self {
            CardinalDirection::North => (0, -1),
            CardinalDirection::East => (1, 0),
            CardinalDirection::South => (0, 1),
            CardinalDirection::West => (-1, 0),
        }
    }

    /// The coordinate one step away from `c` in this direction.
    pub open spec fn spec_step(self, c: Coord) -> Coord {
        Coord { x: (c.x + self.spec_offset().0) as i32, y: (c.y + self.spec_offset().1) as i32 }
    }

    /// Steps from `c`, or `None` where the step leaves the range of `i32`.
    pub fn step(self, c: Coord) -> (r: Option<Coord>)
        ensures
            r matches Some(n) ==> n == self.spec_step(c),
            r is None <==> (c.x + self.spec_offset().0 > i32::MAX || c.x + self.spec_offset().0
                < i32::MIN || c.y + self.spec_offset().1 > i32::MAX || c.y
                + self.spec_offset().1 < i32::MIN),
    {
        match self {
            CardinalDirection::North => if c.y == i32::MIN {
                None
            } else {
                Some(Coord { x: c.x, y: c.y - 1 })
            },
            CardinalDirection::East => if c.x == i32::MAX {
                None
            } else {
                Some(Coord { x: c.x + 1, y: c.y })
            },
            CardinalDirection::South => if c.y == i32::MAX {
                None
            } else {
                Some(Coord { x: c.x, y: c.y + 1 })
            },
            CardinalDirection::West => if c.x == i32::MIN {
                None
            } else {
                Some(Coord { x: c.x - 1, y: c.y })
            },
        }
    }
}

} // verus!
