//! Plane geometry of brush strokes, in whole sub-pixel units.

use crate::arithmetic::{
    lemma_cancel, lemma_combine, lemma_distribute, lemma_product_bounds, lemma_regroup,
    lemma_reorder, lemma_scale, lemma_square_is_not_negative, lemma_square_is_positive,
    lemma_square_of_difference,
    lemma_square_root_bound,
};
use crate::brush::Radius;
use vstd::prelude::*;

verus! {

/// Number of sub-pixel units along one side of a pixel.
pub const UNITS_PER_PIXEL: i32 = 256;

/// Distance, in units, from a pixel's corner to its centre along each axis.
pub const HALF_PIXEL: i32 = 128;

/// Largest magnitude that a coordinate of a [`Point`] may have.
pub const COORD_LIMIT: i32 = 1_073_741_824;

/// Most pixels that a canvas may have along one side: the centre of every
/// pixel of such a canvas is a [`Point`].
pub const MAX_SIDE: usize = 4_194_304;

/// A location of the plane, as the contracts see it.
pub struct Position {
    pub x: int,
    pub y: int,
}

/// The vector that leads from `from` to `to`.
pub open spec fn offset(from: Position, to: Position) -> Position {
    Position { x: to.x - from.x, y: to.y - from.y }
}

/// Scalar product of two vectors.
pub open spec fn dot_product(a: Position, b: Position) -> int {
    a.x * b.x + a.y * b.y
}

/// Signed area of the parallelogram that two vectors span.
pub open spec fn cross_product(a: Position, b: Position) -> int {
    a.x * b.y - a.y * b.x
}

/// Square of a vector's length.
pub open spec fn squared_length(a: Position) -> int {
    dot_product(a, a)
}

/// `p` is at most `radius` away from `center`.
pub open spec fn in_disc(p: Position, center: Position, radius: int) -> bool {
    squared_length(offset(center, p)) <= radius * radius
}

/// `p` lies between the two long edges of the band that joins `from` and
/// `to`, and between the two short edges through `from` and through `to`.
///
/// The long edges run parallel to the line from `from` to `to`, at the
/// perpendicular distance `radius` on either side of it. A band between equal
/// end points holds no position at all.
pub open spec fn in_band(p: Position, from: Position, to: Position, radius: int) -> bool {
    let d = offset(from, to);
    let a = offset(from, p);
    &&& from != to
    &&& 0 <= dot_product(a, d) <= squared_length(d)
    &&& cross_product(a, d) * cross_product(a, d) <= radius * radius * squared_length(d)
}

/// What one step of a drag paints: the disc at each end and the band between.
pub open spec fn in_stroke(p: Position, from: Position, to: Position, radius: int) -> bool {
    in_disc(p, from, radius) || in_band(p, from, to, radius) || in_disc(p, to, radius)
}

/// `p` is at most `radius` away from the position that lies `k` parts out of
/// `n` along the way from `from` to `to`.
pub open spec fn near_division_point(
    p: Position,
    from: Position,
    to: Position,
    radius: int,
    k: int,
    n: int,
) -> bool {
    let d = offset(from, to);
    let a = offset(from, p);
    let u = Position { x: n * a.x - k * d.x, y: n * a.y - k * d.y };
    squared_length(u) <= n * n * (radius * radius)
}

/// `p` is at most `radius` away from some position on the segment that joins
/// `from` and `to`.
///
/// The positions of the segment are told by whole numbers, `k` parts out of
/// `n`; the position of the segment that is nearest to `p` is always one of
/// these.
pub open spec fn near_segment(p: Position, from: Position, to: Position, radius: int) -> bool {
    exists|k: int, n: int|
        0 <= k <= n && 0 < n && #[trigger] near_division_point(p, from, to, radius, k, n)
}

/// The coordinate, along either axis, of the centre of the pixels with the
/// given index along it.
pub open spec fn centre_coordinate(index: int) -> int {
    index * UNITS_PER_PIXEL + HALF_PIXEL
}

/// The centre of the pixel in column `col` and row `row`.
pub open spec fn pixel_centre(col: int, row: int) -> Position {
    Position { x: centre_coordinate(col), y: centre_coordinate(row) }
}

/// A location on the pointer's plane.
#[derive(Clone, Copy, Debug, PartialEq, Eq, Structural)]
pub struct Point {
    pub(crate) x: i32,
    pub(crate) y: i32,
}

impl View for Point {
    type V = Position;

    open(crate) spec fn view(&self) -> Position {
        Position { x: self.x as int, y: self.y as int }
    }
}

impl Point {
    #[verifier::type_invariant]
    pub open(crate) spec fn within_limit(self) -> bool {
        Self::representable(self.x as int, self.y as int)
    }

    /// Whether a pair of coordinates can be held by a `Point`.
    pub open spec fn representable(x: int, y: int) -> bool {
        -COORD_LIMIT <= x <= COORD_LIMIT && -COORD_LIMIT <= y <= COORD_LIMIT
    }

    /// The point at `(x, y)`, or `None` where a coordinate exceeds [`COORD_LIMIT`].
    pub fn new(x: i32, y: i32) -> (result: Option<Point>)
        ensures
            result.is_some() <==> Self::representable(x as int, y as int),
            result matches Some(p) ==> p@ == (Position { x: x as int, y: y as int }),
    {
        if -COORD_LIMIT <= x && x <= COORD_LIMIT && -COORD_LIMIT <= y && y <= COORD_LIMIT {
            Some(Point { x, y })
        } else {
            None
        }
    }

    /// The horizontal coordinate.
    pub fn x(self) -> (result: i32)
        ensures
            result == self@.x,
            -COORD_LIMIT <= result <= COORD_LIMIT,
    {
        proof {
            use_type_invariant(&self);
        }
        self.x
    }

    /// The vertical coordinate.
    pub fn y(self) -> (result: i32)
        ensures
            result == self@.y,
            -COORD_LIMIT <= result <= COORD_LIMIT,
    {
        proof {
            use_type_invariant(&self);
        }
        self.y
    }

    /// Whether two points are the same location.
    pub fn coincides(self, other: Point) -> (result: bool)
        ensures
            result == (self@ == other@),
    {
        self.x == other.x && self.y == other.y
    }

    /// The centre of the pixel in column `col` of row `row`.
    pub(crate) fn centre_of_pixel(col: usize, row: usize) -> (result: Point)
        requires
            col < MAX_SIDE,
            row < MAX_SIDE,
        ensures
            result@ == pixel_centre(col as int, row as int),
    {
        Point {
            x: col as i32 * UNITS_PER_PIXEL + HALF_PIXEL,
            y: row as i32 * UNITS_PER_PIXEL + HALF_PIXEL,
        }
    }
}

/// A rectangle of the plane with sides along the axes, its sides included.
#[derive(Clone, Copy, Debug, PartialEq, Eq, Structural)]
pub struct Bounds {
    pub left: i64,
    pub right: i64,
    pub top: i64,
    pub bottom: i64,
}

impl Bounds {
    /// Whether the rectangle holds the position `p`.
    pub open spec fn holds(self, p: Position) -> bool {
        self.left <= p.x <= self.right && self.top <= p.y <= self.bottom
    }
}

/// A region of the plane that can be filled with one colour.
#[derive(Clone, Copy, Debug, PartialEq, Eq)]
pub enum Shape {
    /// Every position at most `radius` away from `center`.
    Disc { center: Point, radius: Radius },
    /// The quadrilateral that bridges the discs of radius `radius` at `from`
    /// and at `to`; empty where the two are equal.
    Band { from: Point, to: Point, radius: Radius },
}

impl Shape {
    /// Whether the region holds the position `p`.
    pub open spec fn contains(self, p: Position) -> bool {
        match self {
            Shape::Disc { center, radius } => in_disc(p, center@, radius@),
            Shape::Band { from, to, radius } => in_band(p, from@, to@, radius@),
        }
    }

    /// The region as a predicate on positions.
    pub open spec fn region(self) -> spec_fn(Position) -> bool {
        |p: Position| self.contains(p)
    }

    /// The rectangle that reaches `radius` beyond the shape's end points on
    /// every side.
    pub open spec fn bounds(self) -> Bounds {
        match self {
            Shape::Disc { center, radius } => Bounds {
                left: (center@.x - radius@) as i64,
                right: (center@.x + radius@) as i64,
                top: (center@.y - radius@) as i64,
                bottom: (center@.y + radius@) as i64,
            },
            Shape::Band { from, to, radius } => Bounds {
                left: (vstd::math::min(from@.x, to@.x) - radius@) as i64,
                right: (vstd::math::max(from@.x, to@.x) + radius@) as i64,
                top: (vstd::math::min(from@.y, to@.y) - radius@) as i64,
                bottom: (vstd::math::max(from@.y, to@.y) + radius@) as i64,
            },
        }
    }

    /// A rectangle outside of which the region holds nothing.
    pub fn bounding_box(&self) -> (result: Bounds)
        ensures
            result == self.bounds(),
            forall|p: Position| self.contains(p) ==> result.holds(p),
    {
        match *self {
            Shape::Disc { center, radius } => {
                proof {
                    use_type_invariant(&center);
                }
                let r: i64 = radius.units() as i64;
                let result = Bounds {
                    left: center.x as i64 - r,
                    right: center.x as i64 + r,
                    top: center.y as i64 - r,
                    bottom: center.y as i64 + r,
                };
                assert forall|p: Position| self.contains(p) implies result.holds(p) by {
                    let a = offset(center@, p);
                    assert(1 * 1 * (r * r) == r * r) by (nonlinear_arith);
                    lemma_within_reach_along_axis(a.x, 0, a.y, r as int, 0, 1);
                    lemma_within_reach_along_axis(a.y, 0, a.x, r as int, 0, 1);
                }
                result
            },
            Shape::Band { from, to, radius } => {
                proof {
                    use_type_invariant(&from);
                    use_type_invariant(&to);
                }
                let r: i64 = radius.units() as i64;
                let least_x: i64 = if from.x < to.x {
                    from.x as i64
                } else {
                    to.x as i64
                };
                let most_x: i64 = if from.x < to.x {
                    to.x as i64
                } else {
                    from.x as i64
                };
                let least_y: i64 = if from.y < to.y {
                    from.y as i64
                } else {
                    to.y as i64
                };
                let most_y: i64 = if from.y < to.y {
                    to.y as i64
                } else {
                    from.y as i64
                };
                let result = Bounds {
                    left: least_x - r,
                    right: most_x + r,
                    top: least_y - r,
                    bottom: most_y + r,
                };
                assert forall|p: Position| self.contains(p) implies result.holds(p) by {
                    let a = offset(from@, p);
                    let d = offset(from@, to@);
                    lemma_stroke_is_neighbourhood_of_segment(p, from@, to@, r as int);
                    let (k, n) = choose|k: int, n: int|
                        0 <= k <= n && 0 < n && #[trigger] near_division_point(
                            p,
                            from@,
                            to@,
                            r as int,
                            k,
                            n,
                        );
                    lemma_within_reach_along_axis(a.x, d.x, n * a.y - k * d.y, r as int, k, n);
                    lemma_reorder(n * a.x - k * d.x, n * a.x - k * d.x, 0);
                    lemma_within_reach_along_axis(a.y, d.y, n * a.x - k * d.x, r as int, k, n);
                }
                result
            },
        }
    }

    /// Decides whether the region holds `p`, in exact integer arithmetic.
    pub fn covers(&self, p: Point) -> (result: bool)
        ensures
            result == self.contains(p@),
    {
        proof {
            use_type_invariant(&p);
        }
        match *self {
            Shape::Disc { center, radius } => {
                proof {
                    use_type_invariant(&center);
                }
                let ax: i128 = p.x as i128 - center.x as i128;
                let ay: i128 = p.y as i128 - center.y as i128;
                let r: i128 = radius.units() as i128;
                proof {
                    lemma_product_bounds(ax as int, ax as int, 0x8000_0000, 0x8000_0000);
                    lemma_product_bounds(ay as int, ay as int, 0x8000_0000, 0x8000_0000);
                    lemma_product_bounds(r as int, r as int, 0x4000_0000, 0x4000_0000);
                }
                ax * ax + ay * ay <= r * r
            },
            Shape::Band { from, to, radius } => {
                proof {
                    use_type_invariant(&from);
                    use_type_invariant(&to);
                }
                if from.x == to.x && from.y == to.y {
                    return false;
                }
                let ax: i128 = p.x as i128 - from.x as i128;
                let ay: i128 = p.y as i128 - from.y as i128;
                let dx: i128 = to.x as i128 - from.x as i128;
                let dy: i128 = to.y as i128 - from.y as i128;
                let r: i128 = radius.units() as i128;
                proof {
                    lemma_product_bounds(ax as int, dx as int, 0x8000_0000, 0x8000_0000);
                    lemma_product_bounds(ay as int, dy as int, 0x8000_0000, 0x8000_0000);
                    lemma_product_bounds(ax as int, dy as int, 0x8000_0000, 0x8000_0000);
                    lemma_product_bounds(ay as int, dx as int, 0x8000_0000, 0x8000_0000);
                    lemma_product_bounds(dx as int, dx as int, 0x8000_0000, 0x8000_0000);
                    lemma_product_bounds(dy as int, dy as int, 0x8000_0000, 0x8000_0000);
                    lemma_product_bounds(r as int, r as int, 0x4000_0000, 0x4000_0000);
                }
                let along: i128 = ax * dx + ay * dy;
                let across: i128 = ax * dy - ay * dx;
                let length: i128 = dx * dx + dy * dy;
                let reach: i128 = r * r;
                proof {
                    lemma_product_bounds(
                        across as int,
                        across as int,
                        0x8000_0000_0000_0000,
                        0x8000_0000_0000_0000,
                    );
                    lemma_product_bounds(
                        reach as int,
                        length as int,
                        0x1000_0000_0000_0000,
                        0x8000_0000_0000_0000,
                    );
                }
                0 <= along && along <= length && across * across <= reach * length
            },
        }
    }
}

/// How the vector from the division point `k` out of `n` to a position
/// projects onto the segment and across it, in terms of the vector from the
/// segment's start.
proof fn lemma_projections(ax: int, ay: int, dx: int, dy: int, k: int, n: int)
    ensures
        (n * ax - k * dx) * dx + (n * ay - k * dy) * dy == n * (ax * dx + ay * dy) - k * (dx * dx
            + dy * dy),
        (n * ax - k * dx) * dy - (n * ay - k * dy) * dx == n * (ax * dy - ay * dx),
{
    lemma_combine(n, ax, k, dx, dx);
    lemma_combine(n, ay, k, dy, dy);
    lemma_combine(n, ax, k, dx, dy);
    lemma_combine(n, ay, k, dy, dx);
    lemma_distribute(n, ax * dx, ay * dy);
    lemma_distribute(k, dx * dx, dy * dy);
    lemma_distribute(n, ax * dy, ay * dx);
    lemma_reorder(dx, dy, 0);
}

/// Of a position that lies behind the segment's start, as seen along the
/// segment, no division point is nearer than the start itself.
proof fn lemma_beyond_start(ax: int, ay: int, dx: int, dy: int, k: int, n: int)
    requires
        0 <= k,
        0 < n,
        ax * dx + ay * dy <= 0,
    ensures
        n * n * (ax * ax + ay * ay) <= (n * ax - k * dx) * (n * ax - k * dx) + (n * ay - k * dy) * (
        n * ay - k * dy),
{
    let along = ax * dx + ay * dy;
    lemma_square_of_difference(n * ax, k * dx);
    lemma_square_of_difference(n * ay, k * dy);
    lemma_square_is_not_negative(k * dx);
    lemma_square_is_not_negative(k * dy);
    lemma_regroup(n, ax, n, ax);
    lemma_regroup(n, ay, n, ay);
    lemma_regroup(n, ax, k, dx);
    lemma_regroup(n, ay, k, dy);
    lemma_distribute(n * k, ax * dx, ay * dy);
    lemma_distribute(n * n, ax * ax, ay * ay);
    lemma_scale(0, n, k);
    lemma_scale(along, 0, n * k);
}

/// Lagrange's identity: the squared lengths of two vectors multiply to the
/// sum of the squares of their scalar product and of their cross product.
proof fn lemma_lagrange(ux: int, uy: int, dx: int, dy: int)
    ensures
        (ux * ux + uy * uy) * (dx * dx + dy * dy) == (ux * dx + uy * dy) * (ux * dx + uy * dy) + (ux
            * dy - uy * dx) * (ux * dy - uy * dx),
{
    lemma_square_of_difference(ux * dx, uy * dy);
    lemma_square_of_difference(ux * dy, uy * dx);
    lemma_regroup(ux, dx, uy, dy);
    lemma_regroup(ux, dy, uy, dx);
    lemma_regroup(ux, dx, ux, dx);
    lemma_regroup(uy, dy, uy, dy);
    lemma_regroup(ux, dy, ux, dy);
    lemma_regroup(uy, dx, uy, dx);
    lemma_reorder(dx, dy, 0);
    lemma_distribute(ux * ux + uy * uy, dx * dx, dy * dy);
    lemma_distribute(dx * dx, ux * ux, uy * uy);
    lemma_distribute(dy * dy, ux * ux, uy * uy);
}

/// A position within reach of a division point is within the same reach of
/// the line through the segment.
proof fn lemma_between_ends(ax: int, ay: int, dx: int, dy: int, k: int, n: int, s: int)
    requires
        0 < n,
        (n * ax - k * dx) * (n * ax - k * dx) + (n * ay - k * dy) * (n * ay - k * dy) <= n * n * s,
    ensures
        (ax * dy - ay * dx) * (ax * dy - ay * dx) <= s * (dx * dx + dy * dy),
{
    let ux = n * ax - k * dx;
    let uy = n * ay - k * dy;
    let len = dx * dx + dy * dy;
    let across = ax * dy - ay * dx;
    let along = ux * dx + uy * dy;
    lemma_projections(ax, ay, dx, dy, k, n);
    lemma_lagrange(ux, uy, dx, dy);
    lemma_square_is_not_negative(along);
    lemma_square_is_not_negative(dx);
    lemma_square_is_not_negative(dy);
    assert((ux * dy - uy * dx) * (ux * dy - uy * dx) == (n * across) * (n * across));
    lemma_regroup(n, across, n, across);
    lemma_scale(ux * ux + uy * uy, n * n * s, len);
    lemma_reorder(n * n, s, len);
    lemma_square_is_positive(n);
    lemma_reorder(n * n, across * across, 0);
    lemma_reorder(n * n, s * len, 0);
    lemma_cancel(across * across, s * len, n * n);
}

/// The foot of the perpendicular from a position to the segment's line is a
/// division point, and the position is as far from it as from the line.
proof fn lemma_foot_of_perpendicular(ax: int, ay: int, dx: int, dy: int, s: int)
    requires
        dx != 0 || dy != 0,
        (ax * dy - ay * dx) * (ax * dy - ay * dx) <= s * (dx * dx + dy * dy),
    ensures
        ({
            let n = dx * dx + dy * dy;
            let k = ax * dx + ay * dy;
            &&& 0 < n
            &&& (n * ax - k * dx) * (n * ax - k * dx) + (n * ay - k * dy) * (n * ay - k * dy) <= n
                * n * s
        }),
{
    let n = dx * dx + dy * dy;
    let k = ax * dx + ay * dy;
    let ux = n * ax - k * dx;
    let uy = n * ay - k * dy;
    let across = ax * dy - ay * dx;
    let along = ux * dx + uy * dy;
    lemma_square_is_not_negative(dx);
    lemma_square_is_not_negative(dy);
    if dx != 0 {
        lemma_square_is_positive(dx);
    } else {
        lemma_square_is_positive(dy);
    }
    lemma_projections(ax, ay, dx, dy, k, n);
    lemma_reorder(n, k, 0);
    assert(along == 0);
    assert(along * along == 0) by (nonlinear_arith)
        requires
            along == 0,
    ;
    lemma_lagrange(ux, uy, dx, dy);
    assert((ux * dy - uy * dx) * (ux * dy - uy * dx) == (n * across) * (n * across));
    lemma_regroup(n, across, n, across);
    lemma_square_is_not_negative(n);
    lemma_scale(across * across, s * n, n * n);
    lemma_reorder(n * n, s, n);
    lemma_cancel(ux * ux + uy * uy, n * n * s, n);
}

/// A position within reach of a division point lies, along each axis, no
/// further than that reach beyond the segment's ends.
proof fn lemma_within_reach_along_axis(a: int, d: int, other: int, r: int, k: int, n: int)
    requires
        0 <= r,
        0 <= k <= n,
        0 < n,
        (n * a - k * d) * (n * a - k * d) + other * other <= n * n * (r * r),
    ensures
        a <= r + if d < 0 {
            0
        } else {
            d
        },
        a >= -r + if d < 0 {
            d
        } else {
            0
        },
{
    let u = n * a - k * d;
    lemma_square_is_not_negative(other);
    lemma_regroup(n, r, n, r);
    lemma_scale(0, n, r);
    lemma_square_root_bound(u, n * r);
    if d < 0 {
        lemma_scale(d, 0, k);
        lemma_scale(k, n, -d);
        lemma_reorder(-d, k, 0);
        lemma_reorder(-d, n, 0);
        assert(k * d <= 0);
        assert(n * d <= k * d) by (nonlinear_arith)
            requires
                (-d) * k <= (-d) * n,
        ;
        lemma_distribute(n, r, 0);
        lemma_distribute(n, d, r);
        lemma_reorder(n, r, 0);
        lemma_reorder(n, d - r, 0);
        lemma_reorder(n, a, 0);
        lemma_cancel(a, r, n);
        lemma_cancel(d - r, a, n);
    } else {
        lemma_scale(0, d, k);
        lemma_scale(k, n, d);
        lemma_reorder(d, k, 0);
        lemma_reorder(d, n, 0);
        assert(0 <= k * d <= n * d);
        lemma_distribute(n, r, d);
        lemma_distribute(n, -r, 0);
        assert(n * -r == -(n * r)) by (nonlinear_arith);
        lemma_reorder(n, r + d, 0);
        lemma_reorder(n, -r, 0);
        lemma_reorder(n, a, 0);
        lemma_cancel(a, r + d, n);
        lemma_cancel(-r, a, n);
    }
}

/// The vector from a division point to a position, in terms of the vector
/// from the segment's end and of the segment reversed.
proof fn lemma_seen_from_end(a: int, d: int, k: int, n: int)
    by (nonlinear_arith)
    ensures
        n * a - k * d == n * (a - d) - (n - k) * (-d),
        (a - d) * (-d) == d * d - a * d,
{
}

/// A stroke leaves no gap: what the two discs and the band between them hold
/// is every position within `radius` of the segment from `from` to `to`, and
/// nothing else.
pub proof fn lemma_stroke_is_neighbourhood_of_segment(
    p: Position,
    from: Position,
    to: Position,
    radius: int,
)
    ensures
        in_stroke(p, from, to, radius) <==> near_segment(p, from, to, radius),
{
    let a = offset(from, p);
    let b = offset(to, p);
    let d = offset(from, to);
    let s = radius * radius;
    assert(1 * 1 * s == s) by (nonlinear_arith);
    if in_disc(p, from, radius) {
        let u = Position { x: 1 * a.x - 0 * d.x, y: 1 * a.y - 0 * d.y };
        assert(u == a);
        assert(near_division_point(p, from, to, radius, 0, 1));
    }
    if in_disc(p, to, radius) {
        let u = Position { x: 1 * a.x - 1 * d.x, y: 1 * a.y - 1 * d.y };
        assert(u == b);
        assert(near_division_point(p, from, to, radius, 1, 1));
    }
    if in_band(p, from, to, radius) {
        lemma_foot_of_perpendicular(a.x, a.y, d.x, d.y, s);
        assert(near_division_point(p, from, to, radius, dot_product(a, d), squared_length(d)));
    }
    if near_segment(p, from, to, radius) {
        let (k, n) = choose|k: int, n: int|
            0 <= k <= n && 0 < n && #[trigger] near_division_point(p, from, to, radius, k, n);
        if dot_product(a, d) <= 0 {
            lemma_beyond_start(a.x, a.y, d.x, d.y, k, n);
            lemma_square_is_positive(n);
            lemma_reorder(n * n, squared_length(a), 0);
            lemma_reorder(n * n, s, 0);
            lemma_cancel(squared_length(a), s, n * n);
        } else if dot_product(a, d) >= squared_length(d) {
            lemma_seen_from_end(a.x, d.x, k, n);
            lemma_seen_from_end(a.y, d.y, k, n);
            lemma_beyond_start(b.x, b.y, -d.x, -d.y, n - k, n);
            lemma_square_is_positive(n);
            lemma_reorder(n * n, squared_length(b), 0);
            lemma_reorder(n * n, s, 0);
            lemma_cancel(squared_length(b), s, n * n);
        } else {
            lemma_between_ends(a.x, a.y, d.x, d.y, k, n, s);
        }
    }
}

} // verus!
