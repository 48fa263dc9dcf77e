//! Points of the two- and three-dimensional integer lattices, their
//! neighbourhoods and distances, and axis-aligned bounds over them.

use crate::seal::Sealed;
use crate::seqs::{lemma_push_contains, lemma_push_distinct};
use vstd::prelude::*;

verus! {

/// Axis values `(x, y, z)` of a lattice point. A point of the plane has `z == 0`.
pub type CellKey = (i32, i32, i32);

/// Absolute difference of two axis values.
pub open spec fn axis_gap(a: int, b: int) -> int {
    if a >= b {
        a - b
    } else {
        b - a
    }
}

/// Manhattan distance: the sum of the per-axis gaps.
pub open spec fn manhattan(a: CellKey, b: CellKey) -> int {
    axis_gap(a.0 as int, b.0 as int) + axis_gap(a.1 as int, b.1 as int) + axis_gap(
        a.2 as int,
        b.2 as int,
    )
}

/// Chebyshev distance: the largest per-axis gap.
pub open spec fn chebyshev(a: CellKey, b: CellKey) -> int {
    let gx = axis_gap(a.0 as int, b.0 as int);
    let gy = axis_gap(a.1 as int, b.1 as int);
    let gz = axis_gap(a.2 as int, b.2 as int);
    if gx >= gy && gx >= gz {
        gx
    } else if gy >= gz {
        gy
    } else {
        gz
    }
}

/// Every axis of `k` keeps at least `margin` below `i32::MAX` and above `i32::MIN`,
/// so that all points within that distance are representable.
pub open spec fn has_margin(k: CellKey, margin: int) -> bool {
    &&& i32::MIN + margin <= k.0 <= i32::MAX - margin
    &&& i32::MIN + margin <= k.1 <= i32::MAX - margin
    &&& i32::MIN + margin <= k.2 <= i32::MAX - margin
}

/// The Manhattan distance is never negative, and zero between a point and itself only.
pub proof fn lemma_manhattan_non_negative(a: CellKey, b: CellKey)
    ensures
        manhattan(a, b) >= 0,
        manhattan(a, b) == 0 <==> a == b,
{
}

/// The Manhattan distance is the same in both directions.
pub proof fn lemma_manhattan_symmetric(a: CellKey, b: CellKey)
    ensures
        manhattan(a, b) == manhattan(b, a),
{
}

/// The Manhattan distance from `a` to `c` is at most that of the way over `b`.
pub proof fn lemma_manhattan_triangle(a: CellKey, b: CellKey, c: CellKey)
    ensures
        manhattan(a, c) <= manhattan(a, b) + manhattan(b, c),
{
}

/// A Moore neighbourhood has 8 points on the plane and 26 in space; a Von Neumann
/// neighbourhood has 4 and 6.
pub proof fn lemma_neighbourhood_sizes()
    ensures
        Coord2::moore_count() == 8,
        Coord3::moore_count() == 26,
        Coord2::orthogonal_count() == 4,
        Coord3::orthogonal_count() == 6,
{
}

/// `min` does not exceed `max` on any axis.
pub open spec fn span_valid(min: CellKey, max: CellKey) -> bool {
    min.0 <= max.0 && min.1 <= max.1 && min.2 <= max.2
}

/// `k` lies between `min` and `max` on every axis, both ends included.
pub open spec fn span_holds(min: CellKey, max: CellKey, k: CellKey) -> bool {
    &&& min.0 <= k.0 <= max.0
    &&& min.1 <= k.1 <= max.1
    &&& min.2 <= k.2 <= max.2
}

/// A point of an integer lattice. Implemented by [`Coord2`] and [`Coord3`] only.
pub trait GridCoordinates: Sealed + Copy {
    /// The axis values of this point.
    spec fn cell(self) -> CellKey;

    /// The point with the given axis values.
    spec fn at(k: CellKey) -> Self;

    /// Whether `k` holds the axis values of a point of this lattice.
    spec fn on_lattice(k: CellKey) -> bool;

    /// Size of a Moore neighbourhood on this lattice.
    spec fn moore_count() -> nat;

    /// Size of a Von Neumann neighbourhood on this lattice.
    spec fn orthogonal_count() -> nat;

    /// A point is determined by its axis values.
    proof fn lemma_cell_at(p: Self)
        ensures
            Self::on_lattice(p.cell()),
            Self::at(p.cell()) == p,
    ;

    /// Axis values on the lattice are those of the point they give.
    proof fn lemma_at_cell(k: CellKey)
        requires
            Self::on_lattice(k),
        ensures
            Self::at(k).cell() == k,
    ;

    /// The axis values of this point.
    fn to_cell(&self) -> (k: CellKey)
        ensures
            k == self.cell(),
    ;

    /// Whether `k` holds the axis values of a point of this lattice.
    fn is_on_lattice(k: CellKey) -> (b: bool)
        ensures
            b == Self::on_lattice(k),
    ;

    /// The point with the given axis values.
    fn from_cell(k: CellKey) -> (p: Self)
        requires
            Self::on_lattice(k),
        ensures
            p == Self::at(k),
    ;

    /// The Moore neighbourhood of this point: every point that differs from it by at
    /// most one on every axis, the point itself left out.
    fn neighbors(&self) -> (out: Vec<Self>)
        requires
            has_margin(self.cell(), 1),
        ensures
            out@.len() == Self::moore_count(),
            out@.no_duplicates(),
            !out@.contains(*self),
            forall|q: Self| #[trigger] out@.contains(q) <==> chebyshev(self.cell(), q.cell()) == 1,
    ;

    /// The Von Neumann neighbourhood of this point: every point that differs from it
    /// by exactly one on exactly one axis.
    fn neighbors_orthogonal(&self) -> (out: Vec<Self>)
        requires
            has_margin(self.cell(), 1),
        ensures
            out@.len() == Self::orthogonal_count(),
            out@.no_duplicates(),
            !out@.contains(*self),
            forall|q: Self| #[trigger] out@.contains(q) <==> manhattan(self.cell(), q.cell()) == 1,
    ;

    /// Whether every axis value of this point lies in the closed interval that
    /// `bounds` gives for that axis.
    fn in_bounds(&self, bounds: &GridBounds<Self>) -> (b: bool)
        requires
            span_valid(bounds.min.cell(), bounds.max.cell()),
        ensures
            b == span_holds(bounds.min.cell(), bounds.max.cell(), self.cell()),
    ;

    /// Every point whose Manhattan distance to this point is at most `d`, each once.
    fn coordinates_within_distance(&self, d: u32) -> (out: Vec<Self>)
        requires
            has_margin(self.cell(), d as int),
        ensures
            out@.no_duplicates(),
            forall|q: Self| #[trigger] out@.contains(q) <==> manhattan(self.cell(), q.cell()) <= d,
    ;
}

/// An axis-aligned inclusive range of lattice points, from `min` to `max`.
#[derive(Clone, Copy, Debug, PartialEq, Eq)]
pub struct GridBounds<T: GridCoordinates> {
    /// The corner with the smallest value on every axis.
    pub min: T,
    /// The corner with the largest value on every axis.
    pub max: T,
}

impl<T: GridCoordinates> GridBounds<T> {
    /// `min` does not exceed `max` on any axis.
    pub open spec fn valid(self) -> bool {
        span_valid(self.min.cell(), self.max.cell())
    }

    /// `p` lies within these bounds on every axis.
    pub open spec fn holds(self, p: T) -> bool {
        span_holds(self.min.cell(), self.max.cell(), p.cell())
    }

    /// Whether `min` does not exceed `max` on any axis, which the other operations
    /// on bounds take for granted.
    pub fn is_valid(&self) -> (b: bool)
        ensures
            b == self.valid(),
    {
        let lo = self.min.to_cell();
        let hi = self.max.to_cell();
        lo.0 <= hi.0 && lo.1 <= hi.1 && lo.2 <= hi.2
    }

    /// Whether `pos` lies within these bounds.
    pub fn contains(&self, pos: &T) -> (b: bool)
        requires
            self.valid(),
        ensures
            b == self.holds(*pos),
    {
        pos.in_bounds(self)
    }
}

/// Whether every axis of `p` keeps `margin` from the ends of `i32`, so that the
/// points within that distance of `p` exist.
pub fn keeps_margin<T: GridCoordinates>(p: &T, margin: u32) -> (b: bool)
    ensures
        b == has_margin(p.cell(), margin as int),
{
    let k = p.to_cell();
    let m = margin as i64;
    let lo = i32::MIN as i64 + m;
    let hi = i32::MAX as i64 - m;
    lo <= k.0 as i64 && k.0 as i64 <= hi && lo <= k.1 as i64 && k.1 as i64 <= hi && lo <= k.2 as i64
        && k.2 as i64 <= hi
}

/// `k` is next to `c`: at Manhattan distance one if `orthogonal`, else at Chebyshev
/// distance one.
pub open spec fn is_around(c: CellKey, k: CellKey, orthogonal: bool) -> bool {
    if orthogonal {
        manhattan(c, k) == 1
    } else {
        chebyshev(c, k) == 1
    }
}

/// The offset of `k` from `c` comes before `(dx, dy, dz)`, the first axis counting most.
spec fn offset_before(c: CellKey, k: CellKey, dx: int, dy: int, dz: int) -> bool {
    let ex = k.0 - c.0;
    let ey = k.1 - c.1;
    let ez = k.2 - c.2;
    ex < dx || (ex == dx && (ey < dy || (ey == dy && ez < dz)))
}

/// The points next to `p` that the lattice has, each once: its Von Neumann
/// neighbourhood if `orthogonal`, else its Moore neighbourhood. Where `p` lies at an
/// end of the range of `i32`, the neighbours beyond that end do not exist and are
/// left out.
pub fn points_around<T: GridCoordinates>(p: &T, orthogonal: bool) -> (out: Vec<T>)
    ensures
        out@.no_duplicates(),
        forall|q: T| #[trigger] out@.contains(q) <==> is_around(p.cell(), q.cell(), orthogonal),
{
    let c = p.to_cell();
    let mut out: Vec<T> = Vec::new();
    let mut dx: i64 = -1;
    while dx <= 1
        invariant
            c == p.cell(),
            -1 <= dx <= 2,
            out@.no_duplicates(),
            forall|q: T| #[trigger]
                out@.contains(q) <==> (is_around(c, q.cell(), orthogonal) && offset_before(
                    c,
                    q.cell(),
                    dx as int,
                    -1,
                    -1,
                )),
        decreases 2 - dx,
    {
        let mut dy: i64 = -1;
        while dy <= 1
            invariant
                c == p.cell(),
                -1 <= dx <= 1,
                -1 <= dy <= 2,
                out@.no_duplicates(),
                forall|q: T| #[trigger]
                    out@.contains(q) <==> (is_around(c, q.cell(), orthogonal) && offset_before(
                        c,
                        q.cell(),
                        dx as int,
                        dy as int,
                        -1,
                    )),
            decreases 2 - dy,
        {
            let mut dz: i64 = -1;
            while dz <= 1
                invariant
                    c == p.cell(),
                    -1 <= dx <= 1,
                    -1 <= dy <= 1,
                    -1 <= dz <= 2,
                    out@.no_duplicates(),
                    forall|q: T| #[trigger]
                        out@.contains(q) <==> (is_around(c, q.cell(), orthogonal)
                            && offset_before(c, q.cell(), dx as int, dy as int, dz as int)),
                decreases 2 - dz,
            {
                let x = c.0 as i64 + dx;
                let y = c.1 as i64 + dy;
                let z = c.2 as i64 + dz;
                let steps = (if dx == 0 {
                    0
                } else {
                    1u8
                }) + (if dy == 0 {
                    0
                } else {
                    1u8
                }) + (if dz == 0 {
                    0
                } else {
                    1u8
                });
                let wanted = if orthogonal {
                    steps == 1
                } else {
                    steps != 0
                };
                let ghost before = out@;
                if wanted && in_range(x) && in_range(y) && in_range(z) {
                    let k = (x as i32, y as i32, z as i32);
                    if T::is_on_lattice(k) {
                        let t = T::from_cell(k);
                        proof {
                            T::lemma_at_cell(k);
                            lemma_push_contains(out@, t);
                            lemma_push_distinct(out@, t);
                        }
                        out.push(t);
                    }
                }
                proof {
                    assert forall|q: T| #[trigger]
                        out@.contains(q) <==> (is_around(c, q.cell(), orthogonal)
                            && offset_before(c, q.cell(), dx as int, dy as int, dz + 1)) by {
                        T::lemma_cell_at(q);
                        let here = q.cell().0 - c.0 == dx && q.cell().1 - c.1 == dy && q.cell().2
                            - c.2 == dz;
                        assert(offset_before(c, q.cell(), dx as int, dy as int, dz + 1) <==> (
                        offset_before(c, q.cell(), dx as int, dy as int, dz as int) || here));
                        assert(before.contains(q) <==> (is_around(c, q.cell(), orthogonal)
                            && offset_before(c, q.cell(), dx as int, dy as int, dz as int)));
                        if here {
                            assert(is_around(c, q.cell(), orthogonal) <==> wanted);
                        }
                    }
                }
                dz += 1;
            }
            dy += 1;
        }
        dx += 1;
    }
    out
}

/// Whether `v` is a value of `i32`.
fn in_range(v: i64) -> (b: bool)
    ensures
        b == (i32::MIN <= v <= i32::MAX),
{
    -2147483648 <= v && v <= 2147483647
}

/// The Manhattan distance between two points of one lattice.
pub fn manhattan_distance<T: GridCoordinates>(a: &T, b: &T) -> (d: u64)
    ensures
        d == manhattan(a.cell(), b.cell()),
{
    let p = a.to_cell();
    let q = b.to_cell();
    gap(p.0, q.0) + gap(p.1, q.1) + gap(p.2, q.2)
}

fn gap(a: i32, b: i32) -> (g: u64)
    ensures
        g == axis_gap(a as int, b as int),
        g <= u32::MAX,
{
    if a >= b {
        (a as i64 - b as i64) as u64
    } else {
        (b as i64 - a as i64) as u64
    }
}

/// A point of the plane.
#[derive(Clone, Copy, Debug, PartialEq, Eq, Hash)]
pub struct Coord2 {
    pub x: i32,
    pub y: i32,
}

/// A point of space.
#[derive(Clone, Copy, Debug, PartialEq, Eq, Hash)]
pub struct Coord3 {
    pub x: i32,
    pub y: i32,
    pub z: i32,
}

impl Sealed for Coord2 {
}

impl Sealed for Coord3 {
}

impl Coord2 {
    pub fn new(x: i32, y: i32) -> (p: Self)
        ensures
            p.x == x,
            p.y == y,
    {
        Coord2 { x, y }
    }

    /// This point moved by `(dx, dy)`.
    pub open spec fn shifted(self, dx: int, dy: int) -> Self {
        Coord2 { x: (self.x + dx) as i32, y: (self.y + dy) as i32 }
    }

    /// The Moore neighbourhood in the order in which [`GridCoordinates::neighbors`] lists it.
    pub open spec fn moore(self) -> Seq<Self> {
        seq![
            self.shifted(-1, -1),
            self.shifted(0, -1),
            self.shifted(1, -1),
            self.shifted(-1, 0),
            self.shifted(1, 0),
            self.shifted(-1, 1),
            self.shifted(0, 1),
            self.shifted(1, 1),
        ]
    }

    /// The Von Neumann neighbourhood in the order in which
    /// [`GridCoordinates::neighbors_orthogonal`] lists it.
    pub open spec fn von_neumann(self) -> Seq<Self> {
        seq![self.shifted(0, -1), self.shifted(-1, 0), self.shifted(1, 0), self.shifted(0, 1)]
    }
}

impl GridCoordinates for Coord2 {
    open spec fn cell(self) -> CellKey {
        (self.x, self.y, 0i32)
    }

    open spec fn at(k: CellKey) -> Self {
        Coord2 { x: k.0, y: k.1 }
    }

    open spec fn on_lattice(k: CellKey) -> bool {
        k.2 == 0
    }

    open spec fn moore_count() -> nat {
        8
    }

    open spec fn orthogonal_count() -> nat {
        4
    }

    proof fn lemma_cell_at(p: Self) {
    }

    proof fn lemma_at_cell(k: CellKey) {
    }

    fn to_cell(&self) -> (k: CellKey) {
        (self.x, self.y, 0)
    }

    fn is_on_lattice(k: CellKey) -> (b: bool) {
        k.2 == 0
    }

    fn from_cell(k: CellKey) -> (p: Self) {
        Coord2 { x: k.0, y: k.1 }
    }

    fn neighbors(&self) -> (out: Vec<Self>)
        ensures
            out@ == self.moore(),
    {
        let x = self.x;
        let y = self.y;
        let out = vec![
            Coord2 { x: x - 1, y: y - 1 },
            Coord2 { x, y: y - 1 },
            Coord2 { x: x + 1, y: y - 1 },
            Coord2 { x: x - 1, y },
            Coord2 { x: x + 1, y },
            Coord2 { x: x - 1, y: y + 1 },
            Coord2 { x, y: y + 1 },
            Coord2 { x: x + 1, y: y + 1 },
        ];
        proof {
            assert(out@ =~= self.moore());
            assert forall|q: Self| #[trigger] out@.contains(q) <==> chebyshev(self.cell(), q.cell()) == 1 by {
                if chebyshev(self.cell(), q.cell()) == 1 {
                    let dx = q.x - self.x;
                    let dy = q.y - self.y;
                    assert(q == self.shifted(dx, dy));
                    let i: int = if dy == -1 {
                        dx + 1
                    } else if dy == 0 {
                        if dx == -1 {
                            3
                        } else {
                            4
                        }
                    } else {
                        dx + 6
                    };
                    assert(out@[i] == q);
                }
            }
        }
        out
    }

    fn neighbors_orthogonal(&self) -> (out: Vec<Self>)
        ensures
            out@ == self.von_neumann(),
    {
        let x = self.x;
        let y = self.y;
        let out = vec![
            Coord2 { x, y: y - 1 },
            Coord2 { x: x - 1, y },
            Coord2 { x: x + 1, y },
            Coord2 { x, y: y + 1 },
        ];
        proof {
            assert(out@ =~= self.von_neumann());
            assert forall|q: Self| #[trigger]
                out@.contains(q) <==> manhattan(self.cell(), q.cell()) == 1 by {
                if manhattan(self.cell(), q.cell()) == 1 {
                    let dx = q.x - self.x;
                    let dy = q.y - self.y;
                    assert(q == self.shifted(dx, dy));
                    let i: int = if dy == -1 {
                        0
                    } else if dy == 1 {
                        3
                    } else if dx == -1 {
                        1
                    } else {
                        2
                    };
                    assert(out@[i] == q);
                }
            }
        }
        out
    }

    fn in_bounds(&self, bounds: &GridBounds<Self>) -> (b: bool) {
        (self.x >= bounds.min.x && self.x <= bounds.max.x) && (self.y >= bounds.min.y && self.y
            <= bounds.max.y)
    }

    fn coordinates_within_distance(&self, d: u32) -> (out: Vec<Self>) {
        let cx = self.x as i64;
        let cy = self.y as i64;
        let r = d as i64;
        let mut out: Vec<Self> = Vec::new();
        let mut x = cx - r;
        while x <= cx + r
            invariant
                has_margin(self.cell(), d as int),
                cx == self.x,
                cy == self.y,
                r == d,
                cx - r <= x <= cx + r + 1,
                out@.no_duplicates(),
                forall|q: Self| #[trigger]
                    out@.contains(q) <==> (manhattan(self.cell(), q.cell()) <= d && q.x < x),
            decreases cx + r + 1 - x,
        {
            let rest = if x >= cx {
                r - (x - cx)
            } else {
                r - (cx - x)
            };
            let mut y = cy - rest;
            while y <= cy + rest
                invariant
                    has_margin(self.cell(), d as int),
                    cx == self.x,
                    cy == self.y,
                    r == d,
                    cx - r <= x <= cx + r,
                    rest == r - axis_gap(x as int, cx as int),
                    cy - rest <= y <= cy + rest + 1,
                    out@.no_duplicates(),
                    forall|q: Self| #[trigger]
                        out@.contains(q) <==> (manhattan(self.cell(), q.cell()) <= d && (q.x < x
                            || (q.x == x && q.y < y))),
                decreases cy + rest + 1 - y,
            {
                let p = Coord2 { x: x as i32, y: y as i32 };
                proof {
                    lemma_push_contains(out@, p);
                    lemma_push_distinct(out@, p);
                }
                out.push(p);
                y += 1;
            }
            x += 1;
        }
        out
    }
}

impl Coord3 {
    pub fn new(x: i32, y: i32, z: i32) -> (p: Self)
        ensures
            p.x == x,
            p.y == y,
            p.z == z,
    {
        Coord3 { x, y, z }
    }

    /// This point moved by `(dx, dy, dz)`.
    pub open spec fn shifted(self, dx: int, dy: int, dz: int) -> Self {
        Coord3 { x: (self.x + dx) as i32, y: (self.y + dy) as i32, z: (self.z + dz) as i32 }
    }

    /// Offset of cell `i` of the 3x3x3 cube around a point, `x` varying slowest and
    /// `z` fastest. Cell 13 is the centre.
    pub open spec fn cube_offset(i: int) -> (int, int, int) {
        (i / 9 - 1, (i / 3) % 3 - 1, i % 3 - 1)
    }

    /// The Moore neighbourhood in the order in which [`GridCoordinates::neighbors`]
    /// lists it: the cells of the cube around the point, the centre skipped.
    pub open spec fn moore(self) -> Seq<Self> {
        Seq::new(
            26,
            |j: int|
                {
                    let o = Self::cube_offset(
                        if j < 13 {
                            j
                        } else {
                            j + 1
                        },
                    );
                    self.shifted(o.0, o.1, o.2)
                },
        )
    }

    /// The Von Neumann neighbourhood in the order in which
    /// [`GridCoordinates::neighbors_orthogonal`] lists it.
    pub open spec fn von_neumann(self) -> Seq<Self> {
        seq![
            self.shifted(-1, 0, 0),
            self.shifted(1, 0, 0),
            self.shifted(0, -1, 0),
            self.shifted(0, 1, 0),
            self.shifted(0, 0, -1),
            self.shifted(0, 0, 1),
        ]
    }

    /// How many cells other than the centre stand among the first `i` cells of the cube.
    pub open spec fn off_centre(i: int) -> int {
        if i <= 13 {
            i
        } else {
            i - 1
        }
    }

    /// The listed neighbourhood holds each point at Chebyshev distance one exactly once.
    pub proof fn lemma_moore(self)
        requires
            has_margin(self.cell(), 1),
        ensures
            self.moore().no_duplicates(),
            forall|q: Self| #[trigger]
                self.moore().contains(q) <==> chebyshev(self.cell(), q.cell()) == 1,
    {
        let m = self.moore();
        assert forall|q: Self| #[trigger] m.contains(q) <==> chebyshev(self.cell(), q.cell())
            == 1 by {
            if chebyshev(self.cell(), q.cell()) == 1 {
                let dx = q.x - self.x;
                let dy = q.y - self.y;
                let dz = q.z - self.z;
                let i = 9 * (dx + 1) + 3 * (dy + 1) + (dz + 1);
                let j = Self::off_centre(i);
                assert(Self::cube_offset(i) == (dx, dy, dz));
                assert(m[j] == q);
            }
        }
    }
}

impl GridCoordinates for Coord3 {
    open spec fn cell(self) -> CellKey {
        (self.x, self.y, self.z)
    }

    open spec fn at(k: CellKey) -> Self {
        Coord3 { x: k.0, y: k.1, z: k.2 }
    }

    open spec fn on_lattice(k: CellKey) -> bool {
        true
    }

    open spec fn moore_count() -> nat {
        26
    }

    open spec fn orthogonal_count() -> nat {
        6
    }

    proof fn lemma_cell_at(p: Self) {
    }

    proof fn lemma_at_cell(k: CellKey) {
    }

    fn to_cell(&self) -> (k: CellKey) {
        (self.x, self.y, self.z)
    }

    fn is_on_lattice(k: CellKey) -> (b: bool) {
        true
    }

    fn from_cell(k: CellKey) -> (p: Self) {
        Coord3 { x: k.0, y: k.1, z: k.2 }
    }

    fn neighbors(&self) -> (out: Vec<Self>)
        ensures
            out@ == self.moore(),
    {
        let mut out: Vec<Self> = Vec::new();
        let mut dx: i32 = -1;
        while dx <= 1
            invariant
                has_margin(self.cell(), 1),
                -1 <= dx <= 2,
                out@ =~= self.moore().take(Self::off_centre(9 * (dx + 1))),
            decreases 2 - dx,
        {
            let mut dy: i32 = -1;
            while dy <= 1
                invariant
                    has_margin(self.cell(), 1),
                    -1 <= dx <= 1,
                    -1 <= dy <= 2,
                    out@ =~= self.moore().take(Self::off_centre(9 * (dx + 1) + 3 * (dy + 1))),
                decreases 2 - dy,
            {
                let mut dz: i32 = -1;
                while dz <= 1
                    invariant
                        has_margin(self.cell(), 1),
                        -1 <= dx <= 1,
                        -1 <= dy <= 1,
                        -1 <= dz <= 2,
                        out@ =~= self.moore().take(
                            Self::off_centre(9 * (dx + 1) + 3 * (dy + 1) + (dz + 1)),
                        ),
                    decreases 2 - dz,
                {
                    if dx == 0 && dy == 0 && dz == 0 {
                        // the point itself is no neighbour
                    } else {
                        let ghost i = 9 * (dx + 1) + 3 * (dy + 1) + (dz + 1);
                        assert(Self::cube_offset(i) == (dx as int, dy as int, dz as int));
                        out.push(Coord3 { x: self.x + dx, y: self.y + dy, z: self.z + dz });
                    }
                    dz += 1;
                }
                dy += 1;
            }
            dx += 1;
        }
        proof {
            assert(out@ =~= self.moore());
            self.lemma_moore();
        }
        out
    }

    fn neighbors_orthogonal(&self) -> (out: Vec<Self>)
        ensures
            out@ == self.von_neumann(),
    {
        let x = self.x;
        let y = self.y;
        let z = self.z;
        let out = vec![
            Coord3 { x: x - 1, y, z },
            Coord3 { x: x + 1, y, z },
            Coord3 { x, y: y - 1, z },
            Coord3 { x, y: y + 1, z },
            Coord3 { x, y, z: z - 1 },
            Coord3 { x, y, z: z + 1 },
        ];
        proof {
            assert(out@ =~= self.von_neumann());
            assert forall|q: Self| #[trigger]
                out@.contains(q) <==> manhattan(self.cell(), q.cell()) == 1 by {
                if manhattan(self.cell(), q.cell()) == 1 {
                    let dx = q.x - self.x;
                    let dy = q.y - self.y;
                    let dz = q.z - self.z;
                    assert(q == self.shifted(dx, dy, dz));
                    let i: int = if dx == -1 {
                        0
                    } else if dx == 1 {
                        1
                    } else if dy == -1 {
                        2
                    } else if dy == 1 {
                        3
                    } else if dz == -1 {
                        4
                    } else {
                        5
                    };
                    assert(out@[i] == q);
                }
            }
        }
        out
    }

    fn in_bounds(&self, bounds: &GridBounds<Self>) -> (b: bool) {
        (self.x >= bounds.min.x && self.x <= bounds.max.x) && (self.y >= bounds.min.y && self.y
            <= bounds.max.y) && (self.z >= bounds.min.z && self.z <= bounds.max.z)
    }

    fn coordinates_within_distance(&self, d: u32) -> (out: Vec<Self>) {
        let cx = self.x as i64;
        let cy = self.y as i64;
        let cz = self.z as i64;
        let r = d as i64;
        let mut out: Vec<Self> = Vec::new();
        let mut x = cx - r;
        while x <= cx + r
            invariant
                has_margin(self.cell(), d as int),
                cx == self.x,
                cy == self.y,
                cz == self.z,
                r == d,
                cx - r <= x <= cx + r + 1,
                out@.no_duplicates(),
                forall|q: Self| #[trigger]
                    out@.contains(q) <==> (manhattan(self.cell(), q.cell()) <= d && q.x < x),
            decreases cx + r + 1 - x,
        {
            let rest = if x >= cx {
                r - (x - cx)
            } else {
                r - (cx - x)
            };
            let mut y = cy - rest;
            while y <= cy + rest
                invariant
                    has_margin(self.cell(), d as int),
                    cx == self.x,
                    cy == self.y,
                    cz == self.z,
                    r == d,
                    cx - r <= x <= cx + r,
                    rest == r - axis_gap(x as int, cx as int),
                    cy - rest <= y <= cy + rest + 1,
                    out@.no_duplicates(),
                    forall|q: Self| #[trigger]
                        out@.contains(q) <==> (manhattan(self.cell(), q.cell()) <= d && (q.x < x
                            || (q.x == x && q.y < y))),
                decreases cy + rest + 1 - y,
            {
                let last = if y >= cy {
                    rest - (y - cy)
                } else {
                    rest - (cy - y)
                };
                let mut z = cz - last;
                while z <= cz + last
                    invariant
                        has_margin(self.cell(), d as int),
                        cx == self.x,
                        cy == self.y,
                        cz == self.z,
                        r == d,
                        cx - r <= x <= cx + r,
                        rest == r - axis_gap(x as int, cx as int),
                        cy - rest <= y <= cy + rest,
                        last == rest - axis_gap(y as int, cy as int),
                        cz - last <= z <= cz + last + 1,
                        out@.no_duplicates(),
                        forall|q: Self| #[trigger]
                            out@.contains(q) <==> (manhattan(self.cell(), q.cell()) <= d && (q.x
                                < x || (q.x == x && (q.y < y || (q.y == y && q.z < z))))),
                    decreases cz + last + 1 - z,
                {
                    let p = Coord3 { x: x as i32, y: y as i32, z: z as i32 };
                    proof {
                        lemma_push_contains(out@, p);
                        lemma_push_distinct(out@, p);
                    }
                    out.push(p);
                    z += 1;
                }
                y += 1;
            }
            x += 1;
        }
        out
    }
}

} // verus!
