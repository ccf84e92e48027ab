use vstd::prelude::*;
use vstd::arithmetic::div_mod::lemma_fundamental_div_mod_converse_mod;
use crate::rng_buffer::RngBuffer;
use crate::world::World;

verus! {

/// One of the eight compass directions. North is towards smaller `y`, east towards larger `x`.
#[derive(Clone, Copy, Debug, PartialEq, Eq, Structural)]
pub enum Direction {
    North,
    Northeast,
    East,
    Southeast,
    South,
    Southwest,
    West,
    Northwest,
}

impl Direction {
    /// Horizontal unit offset of the direction.
    pub open spec fn dx(self) -> int {
        match self {
            Direction::East | Direction::Northeast | Direction::Southeast => 1,
            Direction::West | Direction::Southwest | Direction::Northwest => -1,
            Direction::North | Direction::South => 0,
        }
    }

    /// Vertical unit offset of the direction.
    pub open spec fn dy(self) -> int {
        match self {
            Direction::South | Direction::Southeast | Direction::Southwest => 1,
            Direction::North | Direction::Northeast | Direction::Northwest => -1,
            Direction::East | Direction::West => 0,
        }
    }

    /// The direction pointing the other way.
    pub open spec fn opposite(self) -> Direction {
        match self {
            Direction::North => Direction::South,
            Direction::Northeast => Direction::Southwest,
            Direction::East => Direction::West,
            Direction::Southeast => Direction::Northwest,
            Direction::South => Direction::North,
            Direction::Southwest => Direction::Northeast,
            Direction::West => Direction::East,
            Direction::Northwest => Direction::Southeast,
        }
    }

    /// The direction with the given position in the order North, Northeast, ..., Northwest.
    pub open spec fn from_index(i: int) -> Direction {
        if i <= 0 {
            Direction::North
        } else if i == 1 {
            Direction::Northeast
        } else if i == 2 {
            Direction::East
        } else if i == 3 {
            Direction::Southeast
        } else if i == 4 {
            Direction::South
        } else if i == 5 {
            Direction::Southwest
        } else if i == 6 {
            Direction::West
        } else {
            Direction::Northwest
        }
    }

    /// The direction picked by a uniform sample `roll / 2^32` in `[0, 1)`: `floor(8 * roll / 2^32)`.
    pub open spec fn for_roll(roll: u32) -> Direction {
        Direction::from_index(roll as int / 0x2000_0000)
    }

    pub fn x(&self) -> (r: isize)
        ensures
            r == self.dx(),
    {
        match self {
            Direction::East | Direction::Northeast | Direction::Southeast => 1,
            Direction::West | Direction::Southwest | Direction::Northwest => -1,
            Direction::North | Direction::South => 0,
        }
    }

    pub fn y(&self) -> (r: isize)
        ensures
            r == self.dy(),
    {
        match self {
            Direction::South | Direction::Southeast | Direction::Southwest => 1,
            Direction::North | Direction::Northeast | Direction::Northwest => -1,
            Direction::East | Direction::West => 0,
        }
    }

    /// Maps a uniform sample `roll / 2^32` to one of the eight directions, each owning an
    /// eighth of the range.
    pub fn from_roll(roll: u32) -> (r: Direction)
        ensures
            r == Direction::for_roll(roll),
    {
        match roll / 0x2000_0000 {
            0 => Direction::North,
            1 => Direction::Northeast,
            2 => Direction::East,
            3 => Direction::Southeast,
            4 => Direction::South,
            5 => Direction::Southwest,
            6 => Direction::West,
            _ => Direction::Northwest,
        }
    }

    /// A direction drawn uniformly from the next sample of `rng`.
    pub fn random(rng: &mut RngBuffer) -> (r: Direction)
        requires
            old(rng).wf(),
        ensures
            final(rng).wf(),
            final(rng)@ == old(rng)@.advanced(),
            r == Direction::for_roll(final(rng)@.current()),
    {
        Direction::from_roll(rng.next())
    }
}

/// How many of the eight directions satisfy `f`.
pub open spec fn count_directions(f: spec_fn(Direction) -> bool) -> int {
    (if f(Direction::North) { 1int } else { 0int })
        + (if f(Direction::Northeast) { 1int } else { 0int })
        + (if f(Direction::East) { 1int } else { 0int })
        + (if f(Direction::Southeast) { 1int } else { 0int })
        + (if f(Direction::South) { 1int } else { 0int })
        + (if f(Direction::Southwest) { 1int } else { 0int })
        + (if f(Direction::West) { 1int } else { 0int })
        + (if f(Direction::Northwest) { 1int } else { 0int })
}

/// A cell of the toroidal grid: its coordinates and its row-major index.
#[derive(Clone, Copy, Debug)]
pub struct Location {
    index: usize,
    x: usize,
    y: usize,
}

/// `(c + delta) mod n`, always in `[0, n)` for `n > 0`.
pub open spec fn wrap(c: int, delta: int, n: int) -> int {
    (c + delta) % n
}

/// The coordinates reached from `p` by one step in direction `d` on a `w` by `h` torus.
pub open spec fn step_from(p: (int, int), d: Direction, w: int, h: int) -> (int, int) {
    (wrap(p.0, d.dx(), w), wrap(p.1, d.dy(), h))
}

impl View for Location {
    type V = (int, int);

    closed spec fn view(&self) -> (int, int) {
        (self.x as int, self.y as int)
    }
}

impl Location {
    /// The row-major index that the location carries.
    pub closed spec fn idx(&self) -> int {
        self.index as int
    }

    /// The location lies on a `w` by `h` grid and its index is `x + w * y`, which is below
    /// `w * h`.
    pub open spec fn wf(&self, w: int, h: int) -> bool {
        &&& 0 <= self@.0 < w
        &&& 0 <= self@.1 < h
        &&& self.idx() == self@.0 + w * self@.1
        &&& 0 <= self.idx() < w * h
    }

    pub fn x(&self) -> (r: usize)
        ensures
            r == self@.0,
    {
        self.x
    }

    pub fn y(&self) -> (r: usize)
        ensures
            r == self@.1,
    {
        self.y
    }

    pub fn index(&self) -> (r: usize)
        ensures
            r == self.idx(),
    {
        self.index
    }

    /// The location at `(x mod width, y mod height)` of the world's grid.
    pub fn at(x: usize, y: usize, world: &World) -> (r: Location)
        requires
            world.wf(),
        ensures
            r@ == (x as int % world@.width, y as int % world@.height),
            r.wf(world@.width, world@.height),
    {
        let w = world.width();
        let h = world.height();
        Location::from_reduced(x % w, y % h, w, h)
    }

    /// Builds the location of coordinates already reduced to a `w` by `h` grid.
    pub(crate) fn from_reduced(x: usize, y: usize, w: usize, h: usize) -> (r: Location)
        requires
            x < w,
            y < h,
            w * h <= usize::MAX,
        ensures
            r@ == (x as int, y as int),
            r.wf(w as int, h as int),
    {
        proof {
            assert(w * y <= w * (h - 1)) by (nonlinear_arith)
                requires
                    y < h,
            ;
            assert(w * (h - 1) + w == w * h) by (nonlinear_arith);
            assert(0 <= w * y) by (nonlinear_arith);
        }
        Location { x, y, index: x + w * y }
    }

    /// The origin `(0, 0)`, which lies on every grid.
    pub fn zero() -> (r: Location)
        ensures
            r@ == (0int, 0int),
            forall|w: int, h: int| 0 < w && 0 < h ==> #[trigger] r.wf(w, h),
    {
        let r = Location { x: 0, y: 0, index: 0 };
        assert forall|w: int, h: int| 0 < w && 0 < h implies #[trigger] r.wf(w, h) by {
            assert(0 < w * h) by (nonlinear_arith)
                requires
                    0 < w,
                    0 < h,
            ;
        }
        r
    }
}

/// For a coordinate below `n` and a unit step, wrapping pulls the plain sum back into range.
pub proof fn lemma_wrap_unit(c: int, delta: int, n: int)
    requires
        0 <= c < n,
        -1 <= delta <= 1,
    ensures
        wrap(c, delta, n) == if c + delta < 0 {
            c + delta + n
        } else if c + delta >= n {
            c + delta - n
        } else {
            c + delta
        },
        0 <= wrap(c, delta, n) < n,
{
    let q: int = if c + delta < 0 {
        -1
    } else if c + delta >= n {
        1
    } else {
        0
    };
    let r: int = if c + delta < 0 {
        c + delta + n
    } else if c + delta >= n {
        c + delta - n
    } else {
        c + delta
    };
    assert(c + delta == q * n + r) by (nonlinear_arith)
        requires
            q == -1 ==> r == c + delta + n,
            q == 1 ==> r == c + delta - n,
            q == 0 ==> r == c + delta,
            q == -1 || q == 0 || q == 1,
    ;
    lemma_fundamental_div_mod_converse_mod(c + delta, n, q, r);
}

/// The coordinates one step away stay on the grid.
pub proof fn lemma_step_in_range(p: (int, int), d: Direction, w: int, h: int)
    requires
        0 <= p.0 < w,
        0 <= p.1 < h,
    ensures
        0 <= step_from(p, d, w, h).0 < w,
        0 <= step_from(p, d, w, h).1 < h,
{
    lemma_wrap_unit(p.0, d.dx(), w);
    lemma_wrap_unit(p.1, d.dy(), h);
}

/// Two cells of the grid that one step in the same direction takes to the same cell are the
/// same cell.
pub proof fn lemma_step_injective(p1: (int, int), p2: (int, int), d: Direction, w: int, h: int)
    requires
        0 <= p1.0 < w,
        0 <= p1.1 < h,
        0 <= p2.0 < w,
        0 <= p2.1 < h,
        step_from(p1, d, w, h) == step_from(p2, d, w, h),
    ensures
        p1 == p2,
{
    lemma_wrap_unit(p1.0, d.dx(), w);
    lemma_wrap_unit(p1.1, d.dy(), h);
    lemma_wrap_unit(p2.0, d.dx(), w);
    lemma_wrap_unit(p2.1, d.dy(), h);
}

/// Distinct cells of a grid of width `w` have distinct row-major indices.
pub proof fn lemma_index_injective(p1: (int, int), p2: (int, int), w: int)
    requires
        0 <= p1.0 < w,
        0 <= p2.0 < w,
        0 <= p1.1,
        0 <= p2.1,
        p1.0 + w * p1.1 == p2.0 + w * p2.1,
    ensures
        p1 == p2,
{
    if p1.1 < p2.1 {
        assert(w * p1.1 + w <= w * p2.1) by (nonlinear_arith)
            requires
                p1.1 < p2.1,
                0 < w,
        ;
    } else if p2.1 < p1.1 {
        assert(w * p2.1 + w <= w * p1.1) by (nonlinear_arith)
            requires
                p2.1 < p1.1,
                0 < w,
        ;
    }
}

/// Moving east from the last column wraps to the first column of the same row.
pub proof fn lemma_wraparound_east(w: int, h: int, y: int)
    requires
        0 < w,
        0 <= y < h,
    ensures
        step_from((w - 1, y), Direction::East, w, h) == (0int, y),
{
    lemma_wrap_unit(w - 1, 1, w);
    lemma_wrap_unit(y, 0, h);
}

/// `(c + delta) mod n` for a coordinate `c` already below `n` and a unit step `delta`.
pub(crate) fn wrap_coordinate(c: usize, delta: isize, n: usize) -> (r: usize)
    requires
        c < n,
        -1 <= delta <= 1,
    ensures
        r == wrap(c as int, delta as int, n as int),
{
    proof {
        lemma_wrap_unit(c as int, delta as int, n as int);
    }
    if delta > 0 {
        if c + 1 == n {
            0
        } else {
            c + 1
        }
    } else if delta < 0 {
        if c == 0 {
            n - 1
        } else {
            c - 1
        }
    } else {
        c
    }
}

} // verus!
