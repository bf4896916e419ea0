//! Enumeration of the disc of a given radius, row by row, and its size.
use vstd::prelude::*;
use crate::coord::{Coord, in_disc, abs};

verus! {

/// The largest radius a world may have.
pub const MAX_RADIUS: i32 = 1_000_000;

/// Number of cells in the disc of radius `r`.
pub open spec fn disc_size(r: int) -> int {
    3 * r * r + 3 * r + 1
}

/// Strict row-major order on positions.
pub open spec fn before(a: (int, int), b: (int, int)) -> bool {
    a.0 < b.0 || (a.0 == b.0 && a.1 < b.1)
}

/// The disc of radius `r`, listed once each and in row-major order.
pub open spec fn lists_disc(s: Seq<Coord>, r: int) -> bool {
    &&& forall|i: int| 0 <= i < s.len() ==> in_disc(#[trigger] s[i]@, r)
    &&& forall|i: int, j: int| 0 <= i < j < s.len() ==> before(#[trigger] s[i]@, #[trigger] s[j]@)
    &&& forall|p: (int, int)| in_disc(p, r) ==> exists|i: int| 0 <= i < s.len() && #[trigger] s[i]@ == p
}

pub open spec fn row_len(r: int, x: int) -> int {
    r + 1 + r - abs(x)
}

/// Number of cells in the rows of the disc left of column `x`.
pub open spec fn rows_before(r: int, x: int) -> int
    decreases x + r,
{
    if x <= -r {
        0
    } else {
        rows_before(r, x - 1) + row_len(r, x - 1)
    }
}

proof fn lemma_rows_left(r: int, x: int)
    requires
        r >= 1,
        -r <= x <= 0,
    ensures
        2 * rows_before(r, x) == (x + r) * (3 * r + 1 + x),
    decreases x + r,
{
    if x > -r {
        lemma_rows_left(r, x - 1);
        assert(row_len(r, x - 1) == 2 * r + x);
        assert(rows_before(r, x) == rows_before(r, x - 1) + row_len(r, x - 1));
        let a = rows_before(r, x - 1);
        let b = rows_before(r, x);
        assert(2 * b == (x + r) * (3 * r + 1 + x)) by (nonlinear_arith)
            requires
                2 * a == (x - 1 + r) * (3 * r + 1 + (x - 1)),
                b == a + (2 * r + x);
    } else {
        assert(rows_before(r, x) == 0);
        assert((x + r) * (3 * r + 1 + x) == 0) by (nonlinear_arith)
            requires
                x + r == 0;
    }
}

proof fn lemma_rows_right(r: int, x: int)
    requires
        r >= 1,
        0 <= x <= r + 1,
    ensures
        2 * rows_before(r, x) == r * (3 * r + 1) + x * (4 * r + 2) - x * (x - 1),
    decreases x,
{
    if x == 0 {
        lemma_rows_left(r, 0);
    } else {
        lemma_rows_right(r, x - 1);
        assert(row_len(r, x - 1) == 2 * r + 1 - (x - 1));
        assert(rows_before(r, x) == rows_before(r, x - 1) + row_len(r, x - 1));
        let a = rows_before(r, x - 1);
        let b = rows_before(r, x);
        assert(2 * b == r * (3 * r + 1) + x * (4 * r + 2) - x * (x - 1)) by (nonlinear_arith)
            requires
                2 * a == r * (3 * r + 1) + (x - 1) * (4 * r + 2) - (x - 1) * (x - 1 - 1),
                b == a + (2 * r + 1 - (x - 1));
    }
}

/// The disc of radius `r` has `3r² + 3r + 1` cells.
pub proof fn lemma_disc_size(r: int)
    requires
        r >= 1,
    ensures
        rows_before(r, r + 1) == disc_size(r),
{
    lemma_rows_right(r, r + 1);
    assert(r * (3 * r + 1) + (r + 1) * (4 * r + 2) - (r + 1) * r == 2 * disc_size(r)) by (nonlinear_arith);
}

/// Every coordinate of the disc of radius `radius`, row by row.
pub fn disc_coords(radius: i32) -> (v: Vec<Coord>)
    requires
        1 <= radius <= MAX_RADIUS,
    ensures
        v@.len() == disc_size(radius as int),
        lists_disc(v@, radius as int),
{
    let mut v: Vec<Coord> = Vec::new();
    let mut x: i32 = -radius;
    while x <= radius
        invariant
            1 <= radius <= MAX_RADIUS,
            -radius <= x <= radius + 1,
            v@.len() == rows_before(radius as int, x as int),
            forall|i: int| 0 <= i < v@.len() ==> in_disc(#[trigger] v@[i]@, radius as int) && v@[i]@.0 < x,
            forall|i: int, j: int| 0 <= i < j < v@.len() ==> before(#[trigger] v@[i]@, #[trigger] v@[j]@),
            forall|p: (int, int)|
                in_disc(p, radius as int) && p.0 < x ==> exists|i: int| 0 <= i < v@.len() && #[trigger] v@[i]@ == p,
        decreases radius + 1 - x,
    {
        let lo: i32 = if -radius > -x - radius { -radius } else { -x - radius };
        let hi: i32 = if radius < radius - x { radius } else { radius - x };
        let ghost start = v@.len();
        let mut y: i32 = lo;
        while y <= hi
            invariant
                1 <= radius <= MAX_RADIUS,
                -radius <= x <= radius,
                lo == (if -radius > -x - radius { -radius as int } else { -x - radius }),
                hi == (if radius < radius - x { radius as int } else { radius - x }),
                lo <= y <= hi + 1,
                start == rows_before(radius as int, x as int),
                v@.len() == start + (y - lo),
                forall|i: int| 0 <= i < v@.len() ==> in_disc(#[trigger] v@[i]@, radius as int)
                    && (v@[i]@.0 < x || (v@[i]@.0 == x && v@[i]@.1 < y)),
                forall|i: int, j: int| 0 <= i < j < v@.len() ==> before(#[trigger] v@[i]@, #[trigger] v@[j]@),
                forall|p: (int, int)|
                    in_disc(p, radius as int) && (p.0 < x || (p.0 == x && p.1 < y))
                        ==> exists|i: int| 0 <= i < v@.len() && #[trigger] v@[i]@ == p,
            decreases hi + 1 - y,
        {
            let c = Coord { x, y };
            let ghost old_v = v@;
            v.push(c);
            assert forall|p: (int, int)|
                in_disc(p, radius as int) && (p.0 < x || (p.0 == x && p.1 < y + 1))
                    implies exists|i: int| 0 <= i < v@.len() && #[trigger] v@[i]@ == p by {
                if p.0 == x && p.1 == y {
                    assert(v@[old_v.len() as int]@ == p);
                } else {
                    let i = choose|i: int| 0 <= i < old_v.len() && #[trigger] old_v[i]@ == p;
                    assert(v@[i]@ == p);
                }
            }
            y = y + 1;
        }
        assert(rows_before(radius as int, x + 1) == rows_before(radius as int, x as int) + row_len(radius as int, x as int));
        x = x + 1;
    }
    proof {
        lemma_disc_size(radius as int);
    }
    v
}

} // verus!
