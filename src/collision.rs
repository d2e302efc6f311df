//! Shapes, colliders and the narrow-phase intersection tests between them.
use vstd::prelude::*;

use crate::math::{
    fits_i64, is_floor_sqrt, isqrt, lemma_square_bound, norm_squared, squared_norm,
    Point, Position, Vector,
};

verus! {

/// Largest absolute value of a coordinate, a radius or a size that the
/// intersection tests accept: within it no intermediate value overflows.
pub const COORD_LIMIT: i64 = 0x4000_0000;

/// True when `v` lies within the coordinate limit.
pub open spec fn within_limit(v: int) -> bool {
    -COORD_LIMIT <= v <= COORD_LIMIT
}

/// Absolute value.
pub open spec fn magnitude(v: int) -> int {
    if v < 0 {
        -v
    } else {
        v
    }
}

/// `a / d` rounded toward zero, for a positive divisor `d`.
pub open spec fn div_toward_zero(a: int, d: int) -> int {
    if a >= 0 {
        a / d
    } else {
        -((-a) / d)
    }
}

#[derive(Clone, Copy, Debug, PartialEq, Eq, Structural)]
pub struct Circle {
    pub radius: i64,
}

impl Circle {
    pub fn new(radius: i64) -> (c: Self)
        ensures
            c.radius == radius,
    {
        Self { radius }
    }
}

/// An axis-aligned rectangle, centred on the position of its collider.
#[derive(Clone, Copy, Debug, PartialEq, Eq, Structural)]
pub struct Rectangle {
    pub width: i64,
    pub height: i64,
}

impl Rectangle {
    pub fn new(width: i64, height: i64) -> (r: Self)
        ensures
            r.width == width,
            r.height == height,
    {
        Self { width, height }
    }
}

#[derive(Clone, Copy, Debug, PartialEq, Eq, Structural)]
pub enum CollisionShape {
    Circle(Circle),
    Rectangle(Rectangle),
}

/// The correction for the first party of a colliding pair. It points toward
/// the other party; the party resolves the overlap by moving against it.
#[derive(Clone, Copy, Debug, PartialEq, Eq, Structural)]
pub struct CollisionInfo {
    pub collision_depth: Vector,
}

impl CollisionInfo {
    pub fn new(collision_depth: Vector) -> (r: Self)
        ensures
            r.collision_depth == collision_depth,
    {
        Self { collision_depth }
    }

    /// The correction for the second party: the opposite vector.
    pub fn symetrical(&self) -> (r: Self)
        requires
            fits_i64(-self.collision_depth.x),
            fits_i64(-self.collision_depth.y),
        ensures
            r.collision_depth@ == (-self.collision_depth.x, -self.collision_depth.y),
    {
        Self { collision_depth: self.collision_depth.neg() }
    }
}

/// A shape placed in the world.
#[derive(Clone, Copy, Debug, PartialEq, Eq, Structural)]
pub struct Collider {
    pub shape: CollisionShape,
    pub position: Position,
}

/// The category of an entity, which selects how it reacts to a collision.
#[derive(Clone, Copy, Debug, PartialEq, Eq, Structural)]
pub enum CollisionMask {
    Player,
    Weapon,
    Enemy,
}

/// What an entity offers to take part in the simulation.
pub trait Collidable {
    /// A snapshot of the entity's shape and position.
    fn get_collider(&self) -> Collider;

    fn get_mask(&self) -> CollisionMask;

    /// Responds to a collision with an entity of category `other_mask`.
    fn react_to_collision(&mut self, info: CollisionInfo, other_mask: CollisionMask);
}

/// The ranges `[c1 - s1/2, c1 + s1/2]` and `[c2 - s2/2, c2 + s2/2]` overlap
/// strictly (stated in doubled units, where the half sizes are whole).
pub open spec fn spans_overlap(c1: int, s1: int, c2: int, s2: int) -> bool {
    2 * c1 - s1 < 2 * c2 + s2 && 2 * c2 - s2 < 2 * c1 + s1
}

/// The distance between the centres is below the sum of the radii.
pub open spec fn circles_overlap(p1: Vector, r1: int, p2: Vector, r2: int) -> bool {
    r1 + r2 > 0 && norm_squared(p2.x - p1.x, p2.y - p1.y) < (r1 + r2) * (r1 + r2)
}

pub open spec fn rectangles_overlap(p1: Vector, a: Rectangle, p2: Vector, b: Rectangle) -> bool {
    spans_overlap(p1.x as int, a.width as int, p2.x as int, b.width as int) && spans_overlap(
        p1.y as int,
        a.height as int,
        p2.y as int,
        b.height as int,
    )
}

/// Twice the coordinate of the point of `[c - s/2, c + s/2]` nearest to `q`:
/// `max(low, min(q, high))`.
pub open spec fn nearest_doubled(q: int, c: int, s: int) -> int {
    let low = 2 * c - s;
    let high = 2 * c + s;
    let capped = if 2 * q < high {
        2 * q
    } else {
        high
    };
    if low > capped {
        low
    } else {
        capped
    }
}

/// Twice the offset from the centre `c` of a circle to the nearest point of
/// the rectangle `rect` centred on `p`.
pub open spec fn offset_to_rectangle(c: Vector, p: Vector, rect: Rectangle) -> (int, int) {
    (
        nearest_doubled(c.x as int, p.x as int, rect.width as int) - 2 * c.x,
        nearest_doubled(c.y as int, p.y as int, rect.height as int) - 2 * c.y,
    )
}

/// The nearest point of the rectangle lies closer than `r` to the circle's centre.
pub open spec fn circle_rectangle_overlap(c: Vector, r: int, p: Vector, rect: Rectangle) -> bool {
    let v = offset_to_rectangle(c, p, rect);
    r > 0 && norm_squared(v.0, v.1) < 4 * r * r
}

/// `q` is the magnitude, rounded toward zero, of one component of the
/// circle/rectangle correction. With `a` the size of that component of the
/// doubled offset, `n` the squared length of the doubled offset and `r` the
/// radius, the exact magnitude is `a * (2r - sqrt(n)) / (2 * sqrt(n))`, and
/// `q <= it < q + 1` reads as below.
pub open spec fn is_depth_magnitude(q: int, a: int, n: int, r: int) -> bool {
    &&& 0 <= q
    &&& n * ((2 * q + a) * (2 * q + a)) <= 4 * (r * r) * (a * a)
    &&& 4 * (r * r) * (a * a) < n * ((2 * q + 2 + a) * (2 * q + 2 + a))
}

/// The magnitude that `is_depth_magnitude` describes.
pub open spec fn depth_magnitude(a: int, n: int, r: int) -> int {
    choose|q: int| is_depth_magnitude(q, a, n, r)
}

/// A correction component of magnitude `q`, against the offset component `v`.
pub open spec fn against(v: int, q: int) -> int {
    if v > 0 {
        -q
    } else {
        q
    }
}

/// For an overlapping pair: the nearest point of the rectangle minus the
/// point of the circle in its direction, `v * (|v| - r) / |v|` for the offset
/// `v`, each component rounded toward zero once; zero when the centre lies in
/// the rectangle. It is the correction of the rectangle.
pub open spec fn circle_rectangle_depth(c: Vector, r: int, p: Vector, rect: Rectangle) -> (int, int) {
    let v = offset_to_rectangle(c, p, rect);
    let n = norm_squared(v.0, v.1);
    if v.0 == 0 && v.1 == 0 {
        (0, 0)
    } else {
        (
            against(v.0, depth_magnitude(magnitude(v.0), n, r)),
            against(v.1, depth_magnitude(magnitude(v.1), n, r)),
        )
    }
}

/// Which way the second centre lies from the first along one axis: -1 or
/// 1, with 1 when the centres share the coordinate.
pub open spec fn support_sign(first_centre: int, second_centre: int) -> int {
    if second_centre - first_centre < 0 {
        -1
    } else {
        1
    }
}

/// Twice the difference of the two support points along one axis.
pub open spec fn support_gap(c1: int, s1: int, c2: int, s2: int) -> int {
    2 * (c1 - c2) + support_sign(c1, c2) * (s1 + s2)
}

/// Half the difference of the support points, kept on the axis where it is
/// smaller (the y axis on a tie is dropped), each component rounded toward zero.
pub open spec fn rectangles_depth(p1: Vector, a: Rectangle, p2: Vector, b: Rectangle) -> (int, int) {
    let gx = support_gap(p1.x as int, a.width as int, p2.x as int, b.width as int);
    let gy = support_gap(p1.y as int, a.height as int, p2.y as int, b.height as int);
    if magnitude(gx) > magnitude(gy) {
        (0, div_toward_zero(gy, 4))
    } else {
        (div_toward_zero(gx, 4), 0)
    }
}

/// The correction for `first` when it meets `second`, or `None` when they do
/// not intersect. A circle and a rectangle share one computation in either
/// order: the rectangle's correction, negated when the circle comes first.
pub open spec fn collision_spec(first: Collider, second: Collider) -> Option<(int, int)> {
    let p1 = first.position;
    let p2 = second.position;
    match (first.shape, second.shape) {
        (CollisionShape::Circle(a), CollisionShape::Circle(b)) => {
            if circles_overlap(p1, a.radius as int, p2, b.radius as int) {
                Some((p2.x - p1.x, p2.y - p1.y))
            } else {
                None
            }
        },
        (CollisionShape::Circle(a), CollisionShape::Rectangle(b)) => {
            if circle_rectangle_overlap(p1, a.radius as int, p2, b) {
                let d = circle_rectangle_depth(p1, a.radius as int, p2, b);
                Some((-d.0, -d.1))
            } else {
                None
            }
        },
        (CollisionShape::Rectangle(a), CollisionShape::Circle(b)) => {
            if circle_rectangle_overlap(p2, b.radius as int, p1, a) {
                Some(circle_rectangle_depth(p2, b.radius as int, p1, a))
            } else {
                None
            }
        },
        (CollisionShape::Rectangle(a), CollisionShape::Rectangle(b)) => {
            if rectangles_overlap(p1, a, p2, b) {
                Some(rectangles_depth(p1, a, p2, b))
            } else {
                None
            }
        },
    }
}

/// The two colliders intersect.
pub open spec fn collides(first: Collider, second: Collider) -> bool {
    collision_spec(first, second) is Some
}

/// Each component of the correction is zero or has the sign of the offset
/// from `from` to `to`: the correction points toward the other party.
pub open spec fn points_toward(info: CollisionInfo, from: Vector, to: Vector) -> bool {
    &&& info.collision_depth.x * (to.x - from.x) >= 0
    &&& info.collision_depth.y * (to.y - from.y) >= 0
}

/// The collider's radius, or width and height, are positive.
pub open spec fn has_positive_size(c: Collider) -> bool {
    match c.shape {
        CollisionShape::Circle(circle) => circle.radius > 0,
        CollisionShape::Rectangle(rect) => rect.width > 0 && rect.height > 0,
    }
}

/// Both components of the correction lie within `4 * COORD_LIMIT`.
pub open spec fn bounded_depth(info: CollisionInfo) -> bool {
    &&& -0x1_0000_0000 <= info.collision_depth.x <= 0x1_0000_0000
    &&& -0x1_0000_0000 <= info.collision_depth.y <= 0x1_0000_0000
}

/// `r` carries exactly the correction `expected`.
pub open spec fn reports(r: Option<CollisionInfo>, expected: Option<(int, int)>) -> bool {
    match expected {
        Some(d) => r is Some && r->0.collision_depth@ == d,
        None => r is None,
    }
}

/// Two circles collide exactly when the distance between their centres is
/// below the sum of their radii (stated on squares: `d < r1 + r2` holds
/// exactly when `r1 + r2 > 0` and `d * d < (r1 + r2) * (r1 + r2)`); circles
/// that touch, at `d == r1 + r2`, do not collide.
pub proof fn lemma_circles_collide_iff_closer_than_radii(first: Collider, second: Collider)
    requires
        first.shape is Circle,
        second.shape is Circle,
    ensures
        ({
            let sum = first.shape->Circle_0.radius + second.shape->Circle_0.radius;
            let d2 = norm_squared(
                second.position.x - first.position.x,
                second.position.y - first.position.y,
            );
            &&& collides(first, second) <==> (sum > 0 && d2 < sum * sum)
            &&& d2 == sum * sum ==> !collides(first, second)
        }),
{
}

/// A circle whose centre lies at a whole distance `d` from the other's
/// collides with it exactly when `d < r1 + r2`.
pub proof fn lemma_circles_collide_at_distance(first: Collider, second: Collider, d: int)
    requires
        first.shape is Circle,
        second.shape is Circle,
        d >= 0,
        d * d == norm_squared(
            second.position.x - first.position.x,
            second.position.y - first.position.y,
        ),
    ensures
        collides(first, second) <==> d < first.shape->Circle_0.radius + second.shape->Circle_0.radius,
{
    let sum = first.shape->Circle_0.radius + second.shape->Circle_0.radius;
    if d < sum {
        assert(d * d < sum * sum) by (nonlinear_arith)
            requires
                0 <= d < sum,
        ;
    } else {
        assert(sum <= 0 || d * d >= sum * sum) by (nonlinear_arith)
            requires
                0 <= d,
                d >= sum,
        ;
    }
}

/// Two rectangles collide exactly when their ranges, centred on their
/// positions, overlap strictly on both axes (stated in doubled units);
/// rectangles whose edges just touch do not collide.
pub proof fn lemma_rectangles_collide_iff_spans_overlap(first: Collider, second: Collider)
    requires
        first.shape is Rectangle,
        second.shape is Rectangle,
    ensures
        ({
            let a = first.shape->Rectangle_0;
            let b = second.shape->Rectangle_0;
            let p1 = first.position;
            let p2 = second.position;
            &&& collides(first, second) <==> (2 * p1.x - a.width < 2 * p2.x + b.width && 2 * p2.x
                - b.width < 2 * p1.x + a.width && 2 * p1.y - a.height < 2 * p2.y + b.height && 2
                * p2.y - b.height < 2 * p1.y + a.height)
            &&& (2 * p1.x + a.width == 2 * p2.x - b.width || 2 * p2.x + b.width == 2 * p1.x
                - a.width || 2 * p1.y + a.height == 2 * p2.y - b.height || 2 * p2.y + b.height == 2
                * p1.y - a.height) ==> !collides(first, second)
        }),
{
}

/// Whether two colliders intersect does not depend on their order.
pub proof fn lemma_collision_existence_symmetric(first: Collider, second: Collider)
    ensures
        collides(first, second) == collides(second, first),
{
    let dx = second.position.x - first.position.x;
    let dy = second.position.y - first.position.y;
    assert(norm_squared(dx, dy) == norm_squared(-dx, -dy)) by (nonlinear_arith);
}

/// `r` is the least non-negative radius whose circle holds a rectangle of
/// the given width and height: `2r` is at least the diagonal.
pub open spec fn is_outer_radius(r: int, width: int, height: int) -> bool {
    &&& r >= 0
    &&& 4 * r * r >= width * width + height * height
    &&& r == 0 || 4 * (r - 1) * (r - 1) < width * width + height * height
}

impl Collider {
    /// Position and shape lie within the coordinate limit.
    pub open spec fn within_bounds(&self) -> bool {
        &&& within_limit(self.position.x as int)
        &&& within_limit(self.position.y as int)
        &&& match self.shape {
            CollisionShape::Circle(c) => within_limit(c.radius as int),
            CollisionShape::Rectangle(r) => within_limit(r.width as int) && within_limit(
                r.height as int,
            ),
        }
    }

    /// Tells whether position and shape lie within the coordinate limit.
    pub fn is_within_bounds(&self) -> (r: bool)
        ensures
            r == self.within_bounds(),
    {
        let position_ok = -COORD_LIMIT <= self.position.x && self.position.x <= COORD_LIMIT
            && -COORD_LIMIT <= self.position.y && self.position.y <= COORD_LIMIT;
        let shape_ok = match self.shape {
            CollisionShape::Circle(c) => -COORD_LIMIT <= c.radius && c.radius <= COORD_LIMIT,
            CollisionShape::Rectangle(r) => -COORD_LIMIT <= r.width && r.width <= COORD_LIMIT
                && -COORD_LIMIT <= r.height && r.height <= COORD_LIMIT,
        };
        position_ok && shape_ok
    }

    /// The intersection test: `Some` with the correction for `first` exactly
    /// when the two colliders intersect, touching not counting.
    pub fn collide(first: Self, second: Self) -> (r: Option<CollisionInfo>)
        requires
            first.within_bounds(),
            second.within_bounds(),
        ensures
            reports(r, collision_spec(first, second)),
            r is Some ==> bounded_depth(r->0),
            r is Some && has_positive_size(first) && has_positive_size(second) ==> points_toward(
                r->0,
                first.position,
                second.position,
            ),
    {
        match (first.shape, second.shape) {
            (CollisionShape::Circle(first_circle), CollisionShape::Circle(second_circle)) => {
                Self::circle_to_circle_collision(
                    first.position,
                    first_circle.radius,
                    second.position,
                    second_circle.radius,
                )
            },
            (CollisionShape::Circle(circle), CollisionShape::Rectangle(rectangle)) => {
                match Self::circle_to_rectangle_collision(
                    first.position,
                    circle.radius,
                    second.position,
                    rectangle,
                ) {
                    Some(info) => {
                        let mirrored = info.symetrical();
                        proof {
                            let d = info.collision_depth;
                            let e = mirrored.collision_depth;
                            let (p, c) = (second.position, first.position);
                            assert(rectangle.width > 0 && rectangle.height > 0 ==> e.x * (p.x - c.x)
                                >= 0 && e.y * (p.y - c.y) >= 0) by (nonlinear_arith)
                                requires
                                    e.x == -d.x,
                                    e.y == -d.y,
                                    rectangle.width > 0 && rectangle.height > 0 ==> d.x * (c.x - p.x)
                                        >= 0 && d.y * (c.y - p.y) >= 0,
                            ;
                        }
                        Some(mirrored)
                    },
                    None => None,
                }
            },
            (CollisionShape::Rectangle(rectangle), CollisionShape::Circle(circle)) => {
                Self::circle_to_rectangle_collision(
                    second.position,
                    circle.radius,
                    first.position,
                    rectangle,
                )
            },
            (
                CollisionShape::Rectangle(first_rectangle),
                CollisionShape::Rectangle(second_rectangle),
            ) => Self::rectangle_to_rectangle_collision(
                first.position,
                first_rectangle,
                second.position,
                second_rectangle,
            ),
        }
    }

    /// Whether `point` lies strictly inside the rectangle centred on
    /// `rectangle_position`.
    pub fn is_point_in_rectangle(
        rectangle_position: Position,
        rectangle: Rectangle,
        point: Point,
    ) -> (r: bool)
        ensures
            r == (2 * rectangle_position.x - rectangle.width < 2 * point.x < 2
                * rectangle_position.x + rectangle.width && 2 * rectangle_position.y
                - rectangle.height < 2 * point.y < 2 * rectangle_position.y + rectangle.height),
    {
        let px = 2 * (point.x as i128);
        let py = 2 * (point.y as i128);
        let cx = 2 * (rectangle_position.x as i128);
        let cy = 2 * (rectangle_position.y as i128);
        let w = rectangle.width as i128;
        let h = rectangle.height as i128;
        let is_in_x = px > cx - w && px < cx + w;
        let is_in_y = py > cy - h && py < cy + h;
        is_in_x && is_in_y
    }

    /// The smallest circle, of whole radius, that holds the rectangle when
    /// both share a centre.
    pub fn outer_rectangle_circle(rectangle: Rectangle) -> (c: Circle)
        ensures
            is_outer_radius(c.radius as int, rectangle.width as int, rectangle.height as int),
    {
        let w = rectangle.width as i128;
        let h = rectangle.height as i128;
        let n = squared_norm(w, h);
        let root = isqrt(n) as u128;
        proof {
            lemma_square_bound(w as int, 0x8000_0000_0000_0000);
            lemma_square_bound(h as int, 0x8000_0000_0000_0000);
            assert(root < 0xffff_ffff_ffff_fff0) by (nonlinear_arith)
                requires
                    root * root <= n,
                    n <= 0x8000_0000_0000_0000_0000_0000_0000_0000,
                    root >= 0,
            ;
            assert(root * root < 0xffff_ffff_ffff_fff0 * 0xffff_ffff_ffff_fff0) by (nonlinear_arith)
                requires
                    0 <= root < 0xffff_ffff_ffff_fff0,
            ;
        }
        let diameter = if root * root == n {
            root
        } else {
            root + 1
        };
        let radius = (diameter + 1) / 2;
        proof {
            let d = diameter as int;
            let r = radius as int;
            let nn = n as int;
            assert(d * d >= nn && (d == 0 || (d - 1) * (d - 1) < nn)) by (nonlinear_arith)
                requires
                    is_floor_sqrt(root as int, nn),
                    d == root || (d == root + 1 && root * root != nn),
                    d == root ==> root * root == nn,
            ;
            assert(4 * r * r >= nn) by (nonlinear_arith)
                requires
                    2 * r >= d,
                    d >= 0,
                    d * d >= nn,
            ;
            assert(r == 0 || 4 * (r - 1) * (r - 1) < nn) by (nonlinear_arith)
                requires
                    2 * r <= d + 1,
                    r >= 0,
                    d == 0 || (d - 1) * (d - 1) < nn,
            ;
        }
        Circle::new(radius as i64)
    }

    fn circle_to_circle_collision(
        first_position: Position,
        first_radius: i64,
        second_position: Position,
        second_radius: i64,
    ) -> (r: Option<CollisionInfo>)
        requires
            within_limit(first_position.x as int),
            within_limit(first_position.y as int),
            within_limit(second_position.x as int),
            within_limit(second_position.y as int),
            within_limit(first_radius as int),
            within_limit(second_radius as int),
        ensures
            reports(
                r,
                if circles_overlap(
                    first_position,
                    first_radius as int,
                    second_position,
                    second_radius as int,
                ) {
                    Some(
                        (
                            second_position.x - first_position.x,
                            second_position.y - first_position.y,
                        ),
                    )
                } else {
                    None
                },
            ),
            r is Some ==> bounded_depth(r->0),
            r is Some ==> points_toward(r->0, first_position, second_position),
    {
        let dx = second_position.x - first_position.x;
        let dy = second_position.y - first_position.y;
        let sum_of_radii = first_radius + second_radius;
        let distance_squared = squared_norm(dx as i128, dy as i128);
        let sum = sum_of_radii as i128;
        proof {
            lemma_square_bound(sum as int, 0x8000_0000);
        }
        let are_colliding = sum_of_radii > 0 && distance_squared < (sum * sum) as u128;
        if !are_colliding {
            return None;
        }
        assert(dx * dx >= 0 && dy * dy >= 0) by (nonlinear_arith);
        Some(CollisionInfo::new(Vector::new(dx, dy)))
    }

    /// The correction of the rectangle when it meets the circle.
    fn circle_to_rectangle_collision(
        circle_position: Position,
        circle_radius: i64,
        rectangle_position: Position,
        rectangle: Rectangle,
    ) -> (r: Option<CollisionInfo>)
        requires
            within_limit(circle_position.x as int),
            within_limit(circle_position.y as int),
            within_limit(rectangle_position.x as int),
            within_limit(rectangle_position.y as int),
            within_limit(circle_radius as int),
            within_limit(rectangle.width as int),
            within_limit(rectangle.height as int),
        ensures
            reports(
                r,
                if circle_rectangle_overlap(
                    circle_position,
                    circle_radius as int,
                    rectangle_position,
                    rectangle,
                ) {
                    Some(
                        circle_rectangle_depth(
                            circle_position,
                            circle_radius as int,
                            rectangle_position,
                            rectangle,
                        ),
                    )
                } else {
                    None
                },
            ),
            r is Some ==> bounded_depth(r->0),
            r is Some && rectangle.width > 0 && rectangle.height > 0 ==> points_toward(
                r->0,
                rectangle_position,
                circle_position,
            ),
    {
        let nearest_x = nearest_on_span(circle_position.x, rectangle_position.x, rectangle.width);
        let nearest_y = nearest_on_span(circle_position.y, rectangle_position.y, rectangle.height);
        let vx = nearest_x - 2 * circle_position.x;
        let vy = nearest_y - 2 * circle_position.y;
        let distance_squared = squared_norm(vx as i128, vy as i128);
        let radius = circle_radius as i128;
        proof {
            lemma_square_bound(radius as int, 0x4000_0000);
        }
        assert(4 * (radius * radius) == 4 * radius * radius) by (nonlinear_arith);
        let are_colliding = circle_radius > 0 && distance_squared < (4 * (radius * radius)) as u128;
        if !are_colliding {
            return None;
        }
        if vx == 0 && vy == 0 {
            return Some(CollisionInfo::new(Vector::new(0, 0)));
        }
        proof {
            assert(distance_squared > 0) by (nonlinear_arith)
                requires
                    distance_squared == vx * vx + vy * vy,
                    vx != 0 || vy != 0,
            ;
            assert(vx * vx <= distance_squared && vy * vy <= distance_squared) by (nonlinear_arith)
                requires
                    distance_squared == vx * vx + vy * vy,
            ;
        }
        let depth_x = depth_component(vx, distance_squared, circle_radius);
        let depth_y = depth_component(vy, distance_squared, circle_radius);
        proof {
            let (ox, oy) = (circle_position.x - rectangle_position.x, circle_position.y
                - rectangle_position.y);
            if rectangle.width > 0 && rectangle.height > 0 {
                assert((depth_x >= 0 && ox >= 0) || (depth_x <= 0 && ox <= 0));
                assert((depth_y >= 0 && oy >= 0) || (depth_y <= 0 && oy <= 0));
                assert(depth_x * ox >= 0 && depth_y * oy >= 0) by (nonlinear_arith)
                    requires
                        (depth_x >= 0 && ox >= 0) || (depth_x <= 0 && ox <= 0),
                        (depth_y >= 0 && oy >= 0) || (depth_y <= 0 && oy <= 0),
                ;
            }
        }
        Some(CollisionInfo::new(Vector::new(depth_x, depth_y)))
    }

    fn rectangle_to_rectangle_collision(
        first_position: Position,
        first: Rectangle,
        second_position: Position,
        second: Rectangle,
    ) -> (r: Option<CollisionInfo>)
        requires
            within_limit(first_position.x as int),
            within_limit(first_position.y as int),
            within_limit(second_position.x as int),
            within_limit(second_position.y as int),
            within_limit(first.width as int),
            within_limit(first.height as int),
            within_limit(second.width as int),
            within_limit(second.height as int),
        ensures
            reports(
                r,
                if rectangles_overlap(first_position, first, second_position, second) {
                    Some(rectangles_depth(first_position, first, second_position, second))
                } else {
                    None
                },
            ),
            r is Some ==> bounded_depth(r->0),
            r is Some ==> points_toward(r->0, first_position, second_position),
    {
        let first_low_x = 2 * first_position.x - first.width;
        let first_low_y = 2 * first_position.y - first.height;
        let second_low_x = 2 * second_position.x - second.width;
        let second_low_y = 2 * second_position.y - second.height;

        let are_colliding = first_low_x < 2 * second_position.x + second.width && second_low_x < 2
            * first_position.x + first.width && first_low_y < 2 * second_position.y
            + second.height && second_low_y < 2 * first_position.y + first.height;
        if !are_colliding {
            return None;
        }

        let sign_x: i64 = if second_position.x - first_position.x < 0 {
            -1
        } else {
            1
        };
        let sign_y: i64 = if second_position.y - first_position.y < 0 {
            -1
        } else {
            1
        };
        let gap_x = 2 * (first_position.x - second_position.x) + sign_x * (first.width
            + second.width);
        let gap_y = 2 * (first_position.y - second_position.y) + sign_y * (first.height
            + second.height);

        let abs_x = if gap_x < 0 {
            -gap_x
        } else {
            gap_x
        };
        let abs_y = if gap_y < 0 {
            -gap_y
        } else {
            gap_y
        };
        let depth = if abs_x > abs_y {
            Vector::new(0, quarter_toward_zero(gap_y))
        } else {
            Vector::new(quarter_toward_zero(gap_x), 0)
        };
        proof {
            let ox = second_position.x - first_position.x;
            let oy = second_position.y - first_position.y;
            assert((gap_x >= 0 && ox >= 0) || (gap_x <= 0 && ox <= 0));
            assert((gap_y >= 0 && oy >= 0) || (gap_y <= 0 && oy <= 0));
            let (qx, qy) = (depth.x as int, depth.y as int);
            assert((qx >= 0 && ox >= 0) || (qx <= 0 && ox <= 0));
            assert((qy >= 0 && oy >= 0) || (qy <= 0 && oy <= 0));
            assert(qx * ox >= 0 && qy * oy >= 0) by (nonlinear_arith)
                requires
                    (qx >= 0 && ox >= 0) || (qx <= 0 && ox <= 0),
                    (qy >= 0 && oy >= 0) || (qy <= 0 && oy <= 0),
            ;
        }
        Some(CollisionInfo::new(depth))
    }
}

/// Twice the coordinate of the point of the span of size `s` centred on `c`
/// nearest to `q`.
fn nearest_on_span(q: i64, c: i64, s: i64) -> (r: i64)
    requires
        within_limit(q as int),
        within_limit(c as int),
        within_limit(s as int),
    ensures
        r == nearest_doubled(q as int, c as int, s as int),
{
    let low = 2 * c - s;
    let high = 2 * c + s;
    let capped = if 2 * q < high {
        2 * q
    } else {
        high
    };
    if low > capped {
        low
    } else {
        capped
    }
}

/// At most one magnitude meets `is_depth_magnitude`.
proof fn lemma_depth_magnitude_unique(q: int, p: int, a: int, n: int, r: int)
    requires
        is_depth_magnitude(q, a, n, r),
        is_depth_magnitude(p, a, n, r),
        a >= 0,
        n > 0,
    ensures
        q == p,
{
    if q < p {
        assert(n * ((2 * q + 2 + a) * (2 * q + 2 + a)) <= n * ((2 * p + a) * (2 * p + a)))
            by (nonlinear_arith)
            requires
                0 <= 2 * q + 2 + a <= 2 * p + a,
                n > 0,
        ;
    } else if p < q {
        assert(n * ((2 * p + 2 + a) * (2 * p + 2 + a)) <= n * ((2 * q + a) * (2 * q + a)))
            by (nonlinear_arith)
            requires
                0 <= 2 * p + 2 + a <= 2 * q + a,
                n > 0,
        ;
    }
}

/// One component of the circle/rectangle correction, for the component `v`
/// of the doubled offset, its squared length `n` and the radius.
fn depth_component(v: i64, n: u128, radius: i64) -> (d: i64)
    requires
        0 < radius <= COORD_LIMIT,
        0 < n < 4 * (radius * radius),
        v * v <= n,
    ensures
        d == against(v as int, depth_magnitude(magnitude(v as int), n as int, radius as int)),
        -radius <= d <= radius,
        v > 0 ==> d <= 0,
        v < 0 ==> d >= 0,
        v == 0 ==> d == 0,
{
    let ghost vi = v as int;
    let ghost nn = n as int;
    let ghost rr = radius as int;
    let ghost ai = magnitude(vi);
    proof {
        assert(ai * ai == vi * vi) by (nonlinear_arith)
            requires
                ai == vi || ai == -vi,
        ;
        assert(ai < 2 * rr) by (nonlinear_arith)
            requires
                ai * ai <= nn,
                nn < 4 * (rr * rr),
                rr > 0,
                ai >= 0,
        ;
        lemma_square_bound(ai, 0x8000_0000);
        lemma_square_bound(rr, 0x4000_0000);
        assert(4 * (rr * rr) * (ai * ai) <= 4 * (0x4000_0000 * 0x4000_0000) * (0x8000_0000
            * 0x8000_0000)) by (nonlinear_arith)
            requires
                0 <= rr * rr <= 0x4000_0000 * 0x4000_0000,
                0 <= ai * ai <= 0x8000_0000 * 0x8000_0000,
        ;
    }
    let a: u128 = if v < 0 {
        (-(v as i128)) as u128
    } else {
        v as u128
    };
    let r = radius as u128;
    assert(a == ai && r == rr);
    assert(r * r <= 0x4000_0000 * 0x4000_0000 && a * a <= 0x8000_0000 * 0x8000_0000);
    let r2 = r * r;
    let a2 = a * a;
    let r4 = 4 * r2;
    assert(r4 * a2 <= 0x1000_0000_0000_0000_0000_0000_0000_0000) by (nonlinear_arith)
        requires
            r4 <= 0x4000_0000_0000_0000,
            a2 <= 0x4000_0000_0000_0000,
    ;
    let x = r4 * a2;
    assert(x == 4 * (rr * rr) * (ai * ai));
    let quotient = x / n;
    let m = isqrt(quotient) as u128;
    let ghost xi = x as int;
    let ghost di = quotient as int;
    let ghost mi = m as int;
    proof {
        vstd::arithmetic::div_mod::lemma_fundamental_div_mod(xi, nn);
        vstd::arithmetic::div_mod::lemma_mod_pos_bound(xi, nn);
        assert(nn * di <= xi && xi < nn * (di + 1)) by (nonlinear_arith)
            requires
                xi == nn * di + xi % nn,
                0 <= xi % nn < nn,
        ;
        assert(nn * (ai * ai) <= xi) by (nonlinear_arith)
            requires
                xi == 4 * (rr * rr) * (ai * ai),
                nn < 4 * (rr * rr),
        ;
        assert(ai * ai <= di) by (nonlinear_arith)
            requires
                nn * (ai * ai) <= xi,
                xi < nn * (di + 1),
                nn > 0,
        ;
        assert(ai <= mi) by (nonlinear_arith)
            requires
                ai * ai <= di,
                di < (mi + 1) * (mi + 1),
                ai >= 0,
                mi >= 0,
        ;
    }
    let q = (m - a) / 2;
    let ghost qi = q as int;
    proof {
        assert(nn * (mi * mi) <= xi) by (nonlinear_arith)
            requires
                mi * mi <= di,
                nn * di <= xi,
                nn > 0,
        ;
        assert(xi < nn * ((mi + 1) * (mi + 1))) by (nonlinear_arith)
            requires
                di + 1 <= (mi + 1) * (mi + 1),
                xi < nn * (di + 1),
                nn > 0,
        ;
        assert(nn * ((2 * qi + ai) * (2 * qi + ai)) <= xi) by (nonlinear_arith)
            requires
                0 <= 2 * qi + ai <= mi,
                nn * (mi * mi) <= xi,
                nn > 0,
        ;
        assert(xi < nn * ((2 * qi + 2 + ai) * (2 * qi + 2 + ai))) by (nonlinear_arith)
            requires
                0 <= mi + 1 <= 2 * qi + 2 + ai,
                xi < nn * ((mi + 1) * (mi + 1)),
                nn > 0,
        ;
        assert(is_depth_magnitude(qi, ai, nn, rr));
        lemma_depth_magnitude_unique(qi, depth_magnitude(ai, nn, rr), ai, nn, rr);
        if ai == 0 {
            assert(qi == 0) by (nonlinear_arith)
                requires
                    nn * ((2 * qi + ai) * (2 * qi + ai)) <= 4 * (rr * rr) * (ai * ai),
                    ai == 0,
                    nn > 0,
                    qi >= 0,
            ;
        }
        assert(2 * qi + ai <= 2 * rr) by (nonlinear_arith)
            requires
                nn * ((2 * qi + ai) * (2 * qi + ai)) <= 4 * (rr * rr) * (ai * ai),
                ai * ai <= nn,
                nn > 0,
                rr > 0,
                qi >= 0,
                ai >= 0,
        ;
    }
    if v > 0 {
        -(q as i64)
    } else {
        q as i64
    }
}

/// `a / 4` rounded toward zero.
fn quarter_toward_zero(a: i64) -> (q: i64)
    ensures
        q == div_toward_zero(a as int, 4),
{
    if a >= 0 {
        a / 4
    } else {
        -(((-(a as i128)) / 4) as i64)
    }
}

} // verus!
