//! Axial hex coordinates, the disc that the world covers, and the six
//! translates of the disc that tile the plane around it.
use vstd::prelude::*;

verus! {

/// The largest absolute component a coordinate handed to the grid
/// primitives may have; it keeps every sum below in `i32`.
pub const COORD_LIMIT: i32 = 100_000_000;

/// An axial hex coordinate; the third cube component is `-x - y`.
#[derive(Clone, Copy, PartialEq, Eq, Structural, Debug, Hash)]
pub struct Coord {
    pub x: i32,
    pub y: i32,
}

impl View for Coord {
    type V = (int, int);

    open spec fn view(&self) -> (int, int) {
        (self.x as int, self.y as int)
    }
}

pub open spec fn abs(a: int) -> int {
    if a < 0 { -a } else { a }
}

/// Cube distance between two positions.
pub open spec fn hex_dist(a: (int, int), b: (int, int)) -> int {
    (abs(a.0 - b.0) + abs(a.1 - b.1) + abs((a.0 + a.1) - (b.0 + b.1))) / 2
}

/// The disc of radius `r` around the origin.
pub open spec fn in_disc(p: (int, int), r: int) -> bool {
    abs(p.0) <= r && abs(p.1) <= r && abs(p.0 + p.1) <= r
}

/// Positions whose components the grid primitives can take.
pub open spec fn in_limit(p: (int, int)) -> bool {
    abs(p.0) <= COORD_LIMIT && abs(p.1) <= COORD_LIMIT
}

/// The `k`-th of the six neighbours of `p`, in the grid's own order.
pub open spec fn neighbor(p: (int, int), k: int) -> (int, int) {
    if k == 0 {
        (p.0, p.1 + 1)
    } else if k == 1 {
        (p.0 + 1, p.1)
    } else if k == 2 {
        (p.0 + 1, p.1 - 1)
    } else if k == 3 {
        (p.0, p.1 - 1)
    } else if k == 4 {
        (p.0 - 1, p.1)
    } else {
        (p.0 - 1, p.1 + 1)
    }
}

/// The `k`-th translation that carries the disc of radius `r` onto one of
/// its six neighbouring copies in the periodic tiling of the plane.
pub open spec fn mirror(r: int, k: int) -> (int, int) {
    if k == 0 {
        (-r, -r - 1)
    } else if k == 1 {
        (r + 1, -2 * r - 1)
    } else if k == 2 {
        (2 * r + 1, -r)
    } else if k == 3 {
        (r, r + 1)
    } else if k == 4 {
        (-r - 1, 2 * r + 1)
    } else {
        (-2 * r - 1, r)
    }
}

pub open spec fn minus(a: (int, int), b: (int, int)) -> (int, int) {
    (a.0 - b.0, a.1 - b.1)
}

/// Relies on `hex2d::Coordinate::neighbors`: the six adjacent coordinates,
/// in a fixed order.
#[verifier::external_body]
pub(crate) fn neighbors(c: Coord) -> (r: Vec<Coord>)
    requires
        abs(c@.0) < COORD_LIMIT,
        abs(c@.1) < COORD_LIMIT,
    ensures
        r@.len() == 6,
        forall|k: int| 0 <= k < 6 ==> #[trigger] r@[k]@ == neighbor(c@, k),
{
    hex2d::Coordinate::new(c.x, c.y).neighbors().iter().map(|n| Coord { x: n.x, y: n.y }).collect()
}

/// Relies on `hex2d::Coordinate::distance`: the cube distance.
#[verifier::external_body]
pub(crate) fn distance(a: Coord, b: Coord) -> (r: i32)
    requires
        in_limit(a@),
        in_limit(b@),
    ensures
        r == hex_dist(a@, b@),
{
    hex2d::Coordinate::new(a.x, a.y).distance(hex2d::Coordinate::new(b.x, b.y))
}

/// Relies on `Sub` for `hex2d::Coordinate`: componentwise difference.
#[verifier::external_body]
pub(crate) fn difference(a: Coord, b: Coord) -> (r: Coord)
    requires
        in_limit(a@),
        in_limit(b@),
    ensures
        r@ == minus(a@, b@),
{
    let d = hex2d::Coordinate::new(a.x, a.y) - hex2d::Coordinate::new(b.x, b.y);
    Coord { x: d.x, y: d.y }
}

/// Relies on `hex2d::Coordinate::ring_iter` around the origin: it walks the
/// six sides of the ring, `radius` steps each, and so yields every
/// coordinate at that distance once.
#[verifier::external_body]
pub(crate) fn ring(radius: i32) -> (r: Vec<Coord>)
    requires
        1 <= radius < COORD_LIMIT,
    ensures
        r@.len() == 6 * radius,
        forall|i: int| 0 <= i < r@.len() ==> hex_dist(#[trigger] r@[i]@, (0, 0)) == radius,
        forall|p: (int, int)|
            hex_dist(p, (0, 0)) == radius ==> exists|i: int| 0 <= i < r@.len() && #[trigger] r@[i]@ == p,
{
    let origin: hex2d::Coordinate<i32> = hex2d::Coordinate::new(0, 0);
    origin.ring_iter(radius, hex2d::Spin::CCW(hex2d::Direction::XY)).map(|n| Coord { x: n.x, y: n.y }).collect()
}

/// Every position just outside the disc of radius `r` lies within `r` of
/// one of the six translations.
pub proof fn lemma_ring_has_mirror(p: (int, int), r: int)
    requires
        r >= 1,
        hex_dist(p, (0, 0)) == r + 1,
    ensures
        exists|k: int| 0 <= k < 6 && hex_dist(p, #[trigger] mirror(r, k)) <= r,
{
    if hex_dist(p, mirror(r, 0)) <= r {
        assert(hex_dist(p, mirror(r, 0)) <= r);
    } else if hex_dist(p, mirror(r, 1)) <= r {
        assert(hex_dist(p, mirror(r, 1)) <= r);
    } else if hex_dist(p, mirror(r, 2)) <= r {
        assert(hex_dist(p, mirror(r, 2)) <= r);
    } else if hex_dist(p, mirror(r, 3)) <= r {
        assert(hex_dist(p, mirror(r, 3)) <= r);
    } else if hex_dist(p, mirror(r, 4)) <= r {
        assert(hex_dist(p, mirror(r, 4)) <= r);
    } else {
        assert(hex_dist(p, mirror(r, 5)) <= r);
    }
}

} // verus!
